use glengine::{
    embedded_image, embedded_images, merge_meshes, texels_to_rgba, EmbeddedTexture, MeshSource,
    SubMesh, Texel,
};

#[test]
fn sub_mesh_new_keeps_fields() {
    let s = SubMesh::new(3..9, 2);
    assert_eq!(s.range, 3..9);
    assert_eq!(s.material, 2);
    let t = s.clone();
    assert_eq!(t.range, 3..9);
}

#[test]
fn merge_moves_indices_past_earlier_vertices() {
    let meshes = vec![
        MeshSource { vertex_count: 4, faces: vec![vec![0, 1, 2], vec![2, 3, 0]], material: 1 },
        MeshSource { vertex_count: 3, faces: vec![vec![0, 1, 2]], material: 0 },
        MeshSource { vertex_count: 5, faces: vec![], material: 7 },
        MeshSource { vertex_count: 2, faces: vec![vec![1, 0], vec![0]], material: 3 },
    ];
    let merged = merge_meshes(&meshes);
    assert_eq!(merged.indices, vec![0, 1, 2, 2, 3, 0, 4, 5, 6, 13, 12, 12]);
    let ranges: Vec<_> = merged.sub_meshes.iter().map(|s| (s.range.clone(), s.material)).collect();
    assert_eq!(ranges, vec![(0..6, 1), (6..9, 0), (9..9, 7), (9..12, 3)]);
}

#[test]
fn merge_of_nothing_is_empty() {
    let merged = merge_meshes(&vec![]);
    assert!(merged.indices.is_empty());
    assert!(merged.sub_meshes.is_empty());
}

fn texel(r: u8, g: u8, b: u8, a: u8) -> Texel {
    Texel { r, g, b, a }
}

#[test]
fn texels_flatten_to_rgba() {
    let raw = texels_to_rgba(&vec![texel(1, 2, 3, 4), texel(5, 6, 7, 8)]);
    assert_eq!(raw, vec![1, 2, 3, 4, 5, 6, 7, 8]);
}

#[test]
fn raw_texels_make_an_image_when_large_enough() {
    let tex = EmbeddedTexture::Texels { width: 2, height: 1, texels: vec![texel(9, 8, 7, 6), texel(1, 1, 1, 1)] };
    let img = embedded_image(&tex).unwrap();
    assert_eq!((img.width, img.height), (2, 1));
    assert_eq!(img.data, vec![9, 8, 7, 6, 1, 1, 1, 1]);
    let short = EmbeddedTexture::Texels { width: 2, height: 2, texels: vec![texel(0, 0, 0, 0); 3] };
    assert!(embedded_image(&short).is_none());
}

#[test]
fn encoded_texture_is_decoded() {
    let img = image::RgbaImage::from_raw(1, 1, vec![10, 20, 30, 255]).unwrap();
    let mut png: Vec<u8> = Vec::new();
    img.write_to(&mut std::io::Cursor::new(&mut png), image::ImageFormat::Png).unwrap();
    let decoded = embedded_image(&EmbeddedTexture::Compressed(png.clone())).unwrap();
    assert_eq!((decoded.width, decoded.height), (1, 1));
    assert_eq!(decoded.data, vec![10, 20, 30, 255]);
    assert_ne!(decoded.data, png);
    assert!(embedded_image(&EmbeddedTexture::Compressed(vec![1, 2, 3])).is_none());
}

#[test]
fn only_usable_textures_are_kept() {
    let textures = vec![
        EmbeddedTexture::Compressed(vec![0, 0, 0]),
        EmbeddedTexture::Texels { width: 1, height: 1, texels: vec![texel(4, 3, 2, 1)] },
        EmbeddedTexture::Texels { width: 3, height: 3, texels: vec![] },
    ];
    let images = embedded_images(&textures);
    assert_eq!(images.len(), 1);
    assert_eq!(images[0].data, vec![4, 3, 2, 1]);
}

#[test]
fn merged_indices_stay_inside_joined_vertices() {
    let meshes = vec![
        MeshSource { vertex_count: 3, faces: vec![vec![0, 1, 2]], material: 0 },
        MeshSource { vertex_count: 4, faces: vec![vec![3, 2, 1], vec![0, 3, 2]], material: 1 },
    ];
    let merged = merge_meshes(&meshes);
    assert!(merged.indices.iter().all(|&i| i < 7));
    assert_eq!(merged.sub_meshes[0].range.end, merged.sub_meshes[1].range.start);
    assert_eq!(merged.sub_meshes[1].range.end, merged.indices.len());
}
