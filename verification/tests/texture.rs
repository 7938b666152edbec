use soft_rend::resources::texture::{Format, Texture, TextureCatalog, TextureError};

fn numbered(width: usize, height: usize, format: Format) -> Texture {
    let channels = match format {
        Format::RGBA32 => 4,
        Format::RGB24 => 3,
    };
    let bytes: Vec<u8> = (0..width * height * channels).map(|i| i as u8).collect();
    Texture::from_pixels(width, height, &bytes, format).unwrap()
}

#[test]
fn new_rgba_texture_is_opaque_black() {
    let texture = Texture::new(2, 3, Format::RGBA32);
    assert_eq!(texture.width(), 2);
    assert_eq!(texture.height(), 3);
    assert_eq!(texture.nb_chanels(), 4);
    assert!(matches!(texture.format(), Format::RGBA32));
    assert_eq!(texture.pixels().len(), 24);
    for pixel in texture.pixels().chunks(4) {
        assert_eq!(pixel, &[0, 0, 0, 255]);
    }
}

#[test]
fn new_rgb_texture_is_black() {
    let texture = Texture::new(3, 2, Format::RGB24);
    assert_eq!(texture.nb_chanels(), 3);
    assert_eq!(texture.pixels(), &vec![0u8; 18]);
}

#[test]
fn new_texture_may_have_no_pixel() {
    let texture = Texture::new(0, 7, Format::RGBA32);
    assert!(texture.pixels().is_empty());
    assert_eq!(texture.height(), 7);
}

#[test]
fn from_pixels_keeps_the_bytes() {
    let bytes = vec![1, 2, 3, 4, 5, 6, 7, 8];
    let texture = Texture::from_pixels(2, 1, &bytes, Format::RGBA32).unwrap();
    assert_eq!(texture.pixels(), &bytes);
    assert_eq!((texture.width(), texture.height()), (2, 1));
    assert_eq!(Format::RGBA32.nb_channels(), 4);
    assert_eq!(Format::RGB24.nb_channels(), 3);
}

#[test]
fn from_pixels_rejects_wrong_length() {
    let bytes = vec![0u8; 11];
    match Texture::from_pixels(2, 2, &bytes, Format::RGB24) {
        Err(TextureError::MismatchedPixelDataSize { expected, actual }) => {
            assert_eq!(expected, 12);
            assert_eq!(actual, 11);
        }
        _ => panic!("a buffer of the wrong length was accepted"),
    }
    let bytes = vec![0u8; 12];
    match Texture::from_pixels(2, 2, &bytes, Format::RGBA32) {
        Err(TextureError::MismatchedPixelDataSize { expected, actual }) => {
            assert_eq!(expected, 16);
            assert_eq!(actual, 12);
        }
        _ => panic!("a buffer of the wrong length was accepted"),
    }
}

#[test]
fn pixel_at_reads_the_pixel_row_by_row() {
    let texture = numbered(3, 2, Format::RGB24);
    assert_eq!(texture.pixel_at(0, 0), &[0, 1, 2]);
    assert_eq!(texture.pixel_at(2, 0), &[6, 7, 8]);
    assert_eq!(texture.pixel_at(0, 1), &[9, 10, 11]);
    assert_eq!(texture.pixel_at(1, 1), &[12, 13, 14]);
    let texture = numbered(2, 2, Format::RGBA32);
    assert_eq!(texture.pixel_at(1, 1), &[12, 13, 14, 15]);
}

#[test]
fn pixel_at_clamps_to_the_last_column_and_row() {
    let texture = numbered(3, 2, Format::RGB24);
    assert_eq!(texture.pixel_at(3, 0), texture.pixel_at(2, 0));
    assert_eq!(texture.pixel_at(usize::MAX, 1), &[15, 16, 17]);
    assert_eq!(texture.pixel_at(1, 2), texture.pixel_at(1, 1));
    assert_eq!(texture.pixel_at(usize::MAX, usize::MAX), &[15, 16, 17]);
}

#[test]
fn catalog_hands_out_ids_from_one() {
    let mut catalog = TextureCatalog::new();
    assert!(catalog.textures().is_empty());
    assert!(catalog.has_room());
    let first = catalog.add_texture(String::from("a"), Texture::new(1, 1, Format::RGB24));
    let second = catalog.add_texture(String::from("b"), Texture::new(2, 1, Format::RGB24));
    assert_eq!(first.unwrap(), 1);
    assert_eq!(second.unwrap(), 2);
    assert_eq!(catalog.id_from_name("a"), Some(1));
    assert_eq!(catalog.id_from_name("b"), Some(2));
    assert_eq!(catalog.id_from_name("c"), None);
    assert!(catalog.texture_from_id(0).is_none());
    assert_eq!(catalog.texture_from_id(1).unwrap().width(), 1);
    assert_eq!(catalog.texture_from_id(2).unwrap().width(), 2);
    assert!(catalog.texture_from_id(3).is_none());
    assert_eq!(catalog.textures().len(), 2);
    assert_eq!(catalog.textures_ids().len(), 2);
    assert_eq!(catalog.textures_ids().get("b"), Some(&2));
}

#[test]
fn catalog_refuses_a_name_twice() {
    let mut catalog = TextureCatalog::new();
    catalog.add_texture(String::from("wall"), Texture::new(1, 1, Format::RGB24)).unwrap();
    catalog.add_texture(String::from("floor"), Texture::new(1, 1, Format::RGB24)).unwrap();
    match catalog.add_texture(String::from("wall"), Texture::new(5, 5, Format::RGB24)) {
        Err(TextureError::NameAlreadyExists { name, existing_id }) => {
            assert_eq!(name, "wall");
            assert_eq!(existing_id, 1);
        }
        _ => panic!("a name was registered twice"),
    }
    assert_eq!(catalog.textures().len(), 2);
    assert_eq!(catalog.texture_from_id(1).unwrap().width(), 1);
    let next = catalog.add_texture(String::from("roof"), Texture::new(1, 1, Format::RGB24));
    assert_eq!(next.unwrap(), 3);
}

#[test]
fn catalog_ids_and_names_stay_one_to_one() {
    let mut catalog = TextureCatalog::new();
    let names = ["a", "b", "c", "d", "e"];
    for name in names {
        catalog.add_texture(String::from(name), Texture::new(1, 1, Format::RGB24)).unwrap();
    }
    let mut ids: Vec<u32> = names.iter().map(|n| catalog.id_from_name(n).unwrap()).collect();
    ids.sort();
    assert_eq!(ids, vec![1, 2, 3, 4, 5]);
    for id in ids {
        assert!(catalog.texture_from_id(id).is_some());
    }
}

#[test]
fn texture_for_follows_the_optional_id() {
    let mut catalog = TextureCatalog::new();
    catalog.add_texture(String::from("a"), Texture::new(4, 1, Format::RGB24)).unwrap();
    assert!(catalog.texture_for(None).is_none());
    assert!(catalog.texture_for(Some(0)).is_none());
    assert!(catalog.texture_for(Some(2)).is_none());
    assert_eq!(catalog.texture_for(Some(1)).unwrap().width(), 4);
}
