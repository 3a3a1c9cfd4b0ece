use rtlib::image::{Image, Rgb, OUT_OF_IMAGE};
use rtlib::textures::{MappedTextureBuilder, Sample, TextureType};

/// An image of 255 by 255 pixels with four bytes each, stored from the top
/// row down: the pixel in column x of row y, counted from the bottom, is
/// (x, y, x * y / 255).
fn test_image() -> Image {
    let mut bytes = Vec::new();
    for row in 0..255u32 {
        let y = 254 - row;
        for x in 0..255u32 {
            bytes.push(x as u8);
            bytes.push(y as u8);
            bytes.push((x * y / 255) as u8);
            bytes.push(255);
        }
    }
    Image::new(bytes, 255, 255, 4).unwrap()
}

#[test]
fn test_image_load() {
    let img = test_image();

    let c0 = img.get(0, 0);
    let ans0 = Rgb { r: 0, g: 0, b: 0 };
    let c1_0 = img.get(1, 0);
    let ans1_0 = Rgb { r: 1, g: 0, b: 0 };
    let c2_0 = img.get(2, 0);
    let ans2_0 = Rgb { r: 2, g: 0, b: (2_u32 * 0_u32 / 255) as u8 };
    let o0 = img.get(0, 254);
    let oans0 = Rgb { r: 0, g: 254, b: 0 };

    let c1 = img.get(0, 1);
    let ans1 = Rgb { r: 0, g: 1, b: 0 };

    let c2 = img.get(1, 2);
    let ans2 = Rgb { r: 1, g: 2, b: 0 };

    let c3 = img.get(115, 164);
    let ans3 = Rgb { r: 115, g: 164, b: (115_u32 * 164_u32 / 255) as u8 };

    let c4 = img.get(254, 254);
    let ans4 = Rgb { r: 254, g: 254, b: (254_u32 * 254_u32 / 255) as u8 };
    assert_eq!(c0.ok(), Some(ans0));
    assert_eq!(c1_0.ok(), Some(ans1_0));
    assert_eq!(c2_0.ok(), Some(ans2_0));
    assert_eq!(o0.ok(), Some(oans0));
    assert_eq!(c1.ok(), Some(ans1));
    assert_eq!(c2.ok(), Some(ans2));
    assert_eq!(c3.ok(), Some(ans3));
    assert_eq!(c4.ok(), Some(ans4));
}

#[test]
fn test_mapped_texture_builder() {
    let image_texture = MappedTextureBuilder::default()
        .with_file(String::from("../results/test_image.bmp"), test_image())
        .build()
        .unwrap();

    let img = image_texture.image;
    let c3 = img.get(115, 164);
    let ans3 = Rgb { r: 115, g: 164, b: (115_u32 * 164_u32 / 255) as u8 };
    assert_eq!(c3.ok(), Some(ans3));
    assert_eq!(image_texture.filename, "../results/test_image.bmp");
}

#[test]
fn a_builder_without_a_file_builds_nothing() {
    assert!(MappedTextureBuilder::default().build().is_none());
}

#[test]
fn coordinates_outside_the_image_are_an_error() {
    let img = test_image();
    assert_eq!(img.get(255, 0), Err(OUT_OF_IMAGE));
    assert_eq!(img.get(0, 255), Err(OUT_OF_IMAGE));
    assert_eq!(img.get(u32::MAX, u32::MAX), Err("Coordinates do no fit into image"));
    assert!(img.get(254, 0).is_ok());
    assert!(img.get(0, 254).is_ok());
}

#[test]
fn an_image_needs_a_buffer_of_its_size() {
    assert!(Image::new(vec![0; 24], 2, 3, 4).is_some());
    assert!(Image::new(vec![0; 18], 2, 3, 3).is_some());
    assert!(Image::new(vec![0; 23], 2, 3, 4).is_none());
    assert!(Image::new(vec![0; 25], 2, 3, 4).is_none());
    assert!(Image::new(vec![0; 12], 2, 3, 2).is_none());
    assert!(Image::new(vec![], 0, 0, 4).is_some());
    assert!(Image::new(vec![], u32::MAX, u32::MAX, u32::MAX).is_none());
}

#[test]
fn rows_are_counted_from_the_bottom() {
    // two columns, two rows, three bytes: the top row is stored first
    let bytes = vec![1, 2, 3, 4, 5, 6, 7, 8, 9, 10, 11, 12];
    let img = Image::new(bytes, 2, 2, 3).unwrap();
    assert_eq!(img.get(0, 1), Ok(Rgb { r: 1, g: 2, b: 3 }));
    assert_eq!(img.get(1, 1), Ok(Rgb { r: 4, g: 5, b: 6 }));
    assert_eq!(img.get(0, 0), Ok(Rgb { r: 7, g: 8, b: 9 }));
    assert_eq!(img.get(1, 0), Ok(Rgb { r: 10, g: 11, b: 12 }));
}

#[test]
fn a_mapped_texture_comes_down_to_its_image() {
    let texture = TextureType::MappedTexture(
        MappedTextureBuilder::default()
            .with_file(String::from("earth"), test_image())
            .build()
            .unwrap(),
    );
    let copy = texture.clone();
    for t in [&texture, &copy] {
        match t.value(false) {
            Sample::Image(m) => {
                assert_eq!(m.filename, "earth");
                assert_eq!(m.image.get(7, 9), Ok(Rgb { r: 7, g: 9, b: 0 }));
            }
            _ => panic!("not an image"),
        }
    }
}

#[test]
fn an_image_knows_its_sizes() {
    let img = Image::new(vec![9; 24], 2, 3, 4).unwrap();
    assert_eq!((img.nx(), img.ny(), img.comp()), (2, 3, 4));
    assert_eq!(img.bytes(), &vec![9u8; 24]);
    let copy = img.clone();
    assert_eq!((copy.nx(), copy.ny(), copy.comp()), (2, 3, 4));
    assert_eq!(copy.bytes(), img.bytes());
    assert_eq!(copy.get(1, 2), img.get(1, 2));
}
