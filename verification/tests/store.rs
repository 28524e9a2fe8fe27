use bmpdisk::error::Error;
use bmpdisk::pixel::Pixel;
use bmpdisk::store::{can_represent, PixelStore};

const BLACK: Pixel = Pixel { r: 0, g: 0, b: 0 };

#[test]
fn blank_store_is_black() {
    let store = PixelStore::blank(5).unwrap();
    assert_eq!(store.width(), 5);
    assert_eq!(store.height(), 5);
    for y in 0..5 {
        for x in 0..5 {
            assert_eq!(store.get_pixel(x, y), BLACK);
        }
    }
}

#[test]
fn empty_store() {
    let store = PixelStore::blank(0).unwrap();
    assert_eq!(store.width(), 0);
    assert_eq!(store.height(), 0);
    assert_eq!(store.encode().unwrap().len(), 54);
}

#[test]
fn set_pixel_changes_one_pixel() {
    let mut store = PixelStore::blank(4).unwrap();
    let red = Pixel { r: 255, g: 0, b: 0 };
    let mixed = Pixel { r: 1, g: 2, b: 3 };
    store.set_pixel(1, 2, red);
    store.set_pixel(3, 0, mixed);
    for y in 0..4 {
        for x in 0..4 {
            let expected = if (x, y) == (1, 2) {
                red
            } else if (x, y) == (3, 0) {
                mixed
            } else {
                BLACK
            };
            assert_eq!(store.get_pixel(x, y), expected);
        }
    }
    store.set_pixel(1, 2, mixed);
    assert_eq!(store.get_pixel(1, 2), mixed);
    assert_eq!(store.width(), 4);
    assert_eq!(store.height(), 4);
}

#[test]
fn x_and_y_are_not_swapped() {
    let mut store = PixelStore::blank(3).unwrap();
    let marked = Pixel { r: 9, g: 8, b: 7 };
    store.set_pixel(2, 0, marked);
    assert_eq!(store.get_pixel(2, 0), marked);
    assert_eq!(store.get_pixel(0, 2), BLACK);
    assert_eq!(store.image().get_pixel(2, 0), bmp::Pixel { r: 9, g: 8, b: 7 });
    assert_eq!(store.image().get_pixel(0, 2), bmp::Pixel { r: 0, g: 0, b: 0 });
}

#[test]
fn adopt_takes_the_image_as_it_is() {
    let mut image = bmp::Image::new(3, 3);
    image.set_pixel(0, 0, bmp::Pixel { r: 10, g: 20, b: 30 });
    image.set_pixel(2, 1, bmp::Pixel { r: 40, g: 50, b: 60 });
    let store = PixelStore::adopt(image).unwrap();
    assert_eq!(store.width(), 3);
    assert_eq!(store.height(), 3);
    assert_eq!(store.get_pixel(0, 0), Pixel { r: 10, g: 20, b: 30 });
    assert_eq!(store.get_pixel(2, 1), Pixel { r: 40, g: 50, b: 60 });
    assert_eq!(store.get_pixel(1, 2), BLACK);
}

#[test]
fn adopt_refuses_an_image_that_is_not_square() {
    assert!(matches!(PixelStore::adopt(bmp::Image::new(2, 3)), Err(Error::NotSquare)));
    assert!(matches!(PixelStore::adopt(bmp::Image::new(3, 2)), Err(Error::NotSquare)));
    assert!(matches!(PixelStore::adopt(bmp::Image::new(0, 1)), Err(Error::NotSquare)));
    assert!(PixelStore::adopt(bmp::Image::new(0, 0)).is_ok());
}

#[test]
fn blank_refuses_a_raster_that_is_too_large() {
    assert!(matches!(PixelStore::blank(37_838), Err(Error::TooLarge)));
    assert!(matches!(PixelStore::blank(699_050), Err(Error::TooLarge)));
    assert!(matches!(PixelStore::blank(u32::MAX), Err(Error::TooLarge)));
}

#[test]
fn representable_sizes() {
    assert!(can_represent(0, 0));
    assert!(can_represent(16, 16));
    assert!(can_represent(4096, 4096));
    assert!(can_represent(37_837, 37_837));
    assert!(!can_represent(37_838, 37_838));
    assert!(can_represent(699_049, 1));
    assert!(!can_represent(699_050, 1));
    assert!(can_represent(1, 1_073_741_810));
    assert!(!can_represent(1, 1_073_741_811));
    assert!(can_represent(0, u32::MAX));
    assert!(!can_represent(u32::MAX, 0));
}

#[test]
fn encoded_file_has_the_bitmap_layout() {
    let mut store = PixelStore::blank(3).unwrap();
    store.set_pixel(0, 2, Pixel { r: 1, g: 2, b: 3 });
    store.set_pixel(2, 0, Pixel { r: 4, g: 5, b: 6 });
    let file = store.encode().unwrap();
    // 54 bytes of header, then three rows of 3 * 3 bytes padded to 12.
    assert_eq!(file.len(), 54 + 3 * 12);
    assert_eq!(&file[0..2], b"BM");
    assert_eq!(&file[2..6], &90u32.to_le_bytes());
    assert_eq!(&file[18..22], &3u32.to_le_bytes());
    assert_eq!(&file[22..26], &3u32.to_le_bytes());
    // Rows are stored bottom up, each pixel as blue, green, red.
    assert_eq!(&file[54..57], &[3, 2, 1]);
    assert_eq!(&file[54 + 2 * 12 + 6..54 + 2 * 12 + 9], &[6, 5, 4]);
}

#[test]
fn encoded_file_decodes_to_the_same_raster() {
    let mut store = PixelStore::blank(5).unwrap();
    for y in 0..5u32 {
        for x in 0..5u32 {
            store.set_pixel(x, y, Pixel { r: x as u8, g: y as u8, b: (10 * x + y) as u8 });
        }
    }
    let file = store.encode().unwrap();
    let mut reader: &[u8] = &file;
    let decoded = bmp::from_reader(&mut reader).unwrap();
    let again = PixelStore::adopt(decoded).unwrap();
    assert_eq!(again.width(), 5);
    for y in 0..5u32 {
        for x in 0..5u32 {
            assert_eq!(again.get_pixel(x, y), store.get_pixel(x, y));
        }
    }
    assert_eq!(again.encode().unwrap(), file);
}

#[test]
fn encoded_file_carries_the_creator_fields_of_the_image() {
    let plain = PixelStore::blank(2).unwrap().encode().unwrap();
    let mut marked = plain.clone();
    marked[6] = 0xAB;
    marked[8] = 0xCD;
    let mut reader: &[u8] = &marked;
    let store = PixelStore::adopt(bmp::from_reader(&mut reader).unwrap()).unwrap();
    let file = store.encode().unwrap();
    assert_eq!(file, marked);
    assert_ne!(file, plain);
}
