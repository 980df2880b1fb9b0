use asset_codec::error::Error;
use asset_codec::terrain::{decode_terrain, export_layers, export_raster, import_raster};

#[test]
fn raster_round_trip_two_by_one() {
    // width 2, height 1: het0/het1/delta whole bytes, materials 4-bit.
    let packed = vec![
        10, 20, // het0
        30, 40, // het1
        50, 60, // delta
        0x21, // mat0: cells 1 and 2
        0x43, // mat1: cells 3 and 4
    ];
    let t = decode_terrain(&packed, 2, 1).unwrap();
    assert_eq!(t.het0, vec![10, 20]);
    assert_eq!(t.het1, vec![30, 40]);
    assert_eq!(t.delta, vec![50, 60]);
    assert_eq!(t.mat0, vec![1, 2]);
    assert_eq!(t.mat1, vec![3, 4]);

    let raster = export_raster(&t);
    assert_eq!(raster.len(), 8);
    assert_eq!(raster, vec![10, 30, 50, 0x31, 20, 40, 60, 0x42]);

    let back = import_raster(&raster, 2, 1).unwrap();
    assert_eq!(back.het0, t.het0);
    assert_eq!(back.het1, t.het1);
    assert_eq!(back.delta, t.delta);
    assert_eq!(back.mat0, t.mat0);
    assert_eq!(back.mat1, t.mat1);
}

#[test]
fn raster_export_after_import_restores_bytes() {
    let data: Vec<u8> = (0u8..=255).collect::<Vec<u8>>()[..8].to_vec();
    let t = import_raster(&data, 1, 2).unwrap();
    assert_eq!(export_raster(&t), data);
}

#[test]
fn terrain_wrong_byte_count_fails() {
    let packed = vec![0u8; 7];
    assert!(matches!(decode_terrain(&packed, 2, 2), Err(Error::MalformedTerrain)));
    let raster = vec![0u8; 9];
    assert!(matches!(import_raster(&raster, 2, 1), Err(Error::MalformedTerrain)));
}

#[test]
fn empty_terrain_is_valid() {
    let t = decode_terrain(&Vec::new(), 0, 0).unwrap();
    assert_eq!(t.het0.len(), 0);
    assert_eq!(export_raster(&t).len(), 0);
}

#[test]
fn layers_carry_declared_bit_depths() {
    // width 3, height 1: an odd cell count leaves a zero high nibble in
    // the trailing packed material byte.
    let packed = vec![
        1, 2, 3, // het0
        4, 5, 6, // het1
        7, 8, 9, // delta
        0x21, 0x03, // mat0: 1, 2, 3
        0x54, 0x06, // mat1: 4, 5, 6
    ];
    let t = decode_terrain(&packed, 3, 1).unwrap();
    let planes = export_layers(&t);
    assert_eq!(planes.len(), 5);
    assert_eq!(planes[0].bit_depth, 8);
    assert_eq!(planes[0].data, vec![1, 2, 3]);
    assert_eq!(planes[1].bit_depth, 8);
    assert_eq!(planes[1].data, vec![4, 5, 6]);
    assert_eq!(planes[2].bit_depth, 8);
    assert_eq!(planes[2].data, vec![7, 8, 9]);
    assert_eq!(planes[3].bit_depth, 4);
    assert_eq!(planes[3].data, vec![0x21, 0x03]);
    assert_eq!(planes[4].bit_depth, 4);
    assert_eq!(planes[4].data, vec![0x54, 0x06]);
}

#[test]
fn layers_concatenate_back_to_the_packed_file() {
    let packed = vec![
        10, 20, // het0
        30, 40, // het1
        50, 60, // delta
        0x21, 0x43,
    ];
    let t = decode_terrain(&packed, 2, 1).unwrap();
    let planes = export_layers(&t);
    let mut rebuilt = Vec::new();
    for p in &planes {
        rebuilt.extend_from_slice(&p.data);
    }
    assert_eq!(rebuilt, packed);
}
