use bmpdisk::channel::ChannelPageMapper;
use bmpdisk::coordinate::{CoordinateMapper, Traversal};
use bmpdisk::pixel::{Channel, Pixel};

fn roundtrip_all(traversal: Traversal, dimension: u32) {
    let grid = CoordinateMapper::new(traversal, dimension);
    let cells = dimension as u64 * dimension as u64;
    assert_eq!(grid.cell_count(), cells);
    let mut seen = vec![false; cells as usize];
    for index in 0..cells {
        let (x, y) = grid.map(index);
        assert!(grid.contains(x, y), "index {} left the grid", index);
        assert_eq!(grid.invert(x, y), index);
        let slot = (y * dimension + x) as usize;
        assert!(!seen[slot], "point ({}, {}) hit twice", x, y);
        seen[slot] = true;
    }
    assert!(seen.iter().all(|hit| *hit));
}

#[test]
fn raster_order_is_a_bijection() {
    for dimension in [1u32, 2, 3, 5, 7, 16, 33] {
        roundtrip_all(Traversal::Raster, dimension);
    }
}

#[test]
fn hilbert_order_is_a_bijection_on_power_of_two_grids() {
    for dimension in [1u32, 2, 4, 8, 16, 32, 64] {
        roundtrip_all(Traversal::Hilbert, dimension);
    }
}

#[test]
fn raster_order_values() {
    let grid = CoordinateMapper::new(Traversal::Raster, 4);
    assert_eq!(grid.map(0), (0, 0));
    assert_eq!(grid.map(3), (3, 0));
    assert_eq!(grid.map(4), (0, 1));
    assert_eq!(grid.map(6), (2, 1));
    assert_eq!(grid.map(15), (3, 3));
    assert_eq!(grid.invert(2, 1), 6);
    assert_eq!(grid.invert(3, 3), 15);
    let odd = CoordinateMapper::new(Traversal::Raster, 5);
    assert_eq!(odd.map(7), (2, 1));
    assert_eq!(odd.map(24), (4, 4));
    assert_eq!(odd.invert(4, 4), 24);
}

#[test]
fn hilbert_order_values() {
    let grid = CoordinateMapper::new(Traversal::Hilbert, 2);
    assert_eq!(grid.map(0), (0, 0));
    assert_eq!(grid.map(1), (1, 0));
    assert_eq!(grid.map(2), (1, 1));
    assert_eq!(grid.map(3), (0, 1));
    assert_eq!(grid.invert(0, 0), 0);
    assert_eq!(grid.invert(1, 0), 1);
    assert_eq!(grid.invert(1, 1), 2);
    assert_eq!(grid.invert(0, 1), 3);
}

#[test]
fn hilbert_order_is_what_fast_hilbert_computes() {
    let grid = CoordinateMapper::new(Traversal::Hilbert, 4096);
    let last: (u32, u32) = fast_hilbert::h2xy::<u32>(16_777_215);
    assert_eq!(grid.map(16_777_215), last);
    assert!(grid.contains(last.0, last.1));
    for index in [0u64, 1, 5, 255, 256, 4095, 65_535, 1_000_000, 16_777_214] {
        let expected: (u32, u32) = fast_hilbert::h2xy::<u32>(index);
        assert_eq!(grid.map(index), expected);
        assert_ne!(grid.map(index + 1), expected);
        assert_eq!(grid.invert(expected.0, expected.1), fast_hilbert::xy2h::<u32>(expected.0, expected.1));
        assert_eq!(grid.invert(expected.0, expected.1), index);
    }
}

#[test]
fn hilbert_order_keeps_neighbours_close() {
    let grid = CoordinateMapper::new(Traversal::Hilbert, 16);
    for index in 0..255u64 {
        let (x0, y0) = grid.map(index);
        let (x1, y1) = grid.map(index + 1);
        let step = x0.abs_diff(x1) + y0.abs_diff(y1);
        assert_eq!(step, 1);
    }
}

#[test]
fn hilbert_order_leaves_a_grid_that_is_no_power_of_two() {
    let grid = CoordinateMapper::new(Traversal::Hilbert, 3);
    assert_eq!(grid.map(4), (0, 2));
    assert_eq!(grid.map(5), (0, 3));
    assert!(!grid.contains(0, 3));
    let mut outside = 0;
    for index in 0..9u64 {
        let (x, y) = grid.map(index);
        if !grid.contains(x, y) {
            outside += 1;
        }
    }
    assert!(outside > 0);
}

#[test]
fn contains_is_the_grid() {
    let grid = CoordinateMapper::new(Traversal::Raster, 3);
    assert!(grid.contains(0, 0));
    assert!(grid.contains(2, 2));
    assert!(!grid.contains(3, 0));
    assert!(!grid.contains(0, 3));
    let empty = CoordinateMapper::new(Traversal::Raster, 0);
    assert!(!empty.contains(0, 0));
    assert_eq!(empty.cell_count(), 0);
}

#[test]
fn cell_count_of_the_largest_grid() {
    let grid = CoordinateMapper::new(Traversal::Raster, u32::MAX);
    assert_eq!(grid.cell_count(), 18_446_744_065_119_617_025);
    assert_eq!(grid.map(18_446_744_065_119_617_024), (u32::MAX - 1, u32::MAX - 1));
}

#[test]
fn every_address_lies_on_one_of_three_pages() {
    for dimension in [1u32, 2, 3, 4, 16] {
        let pages = ChannelPageMapper::new(CoordinateMapper::new(Traversal::Raster, dimension));
        let cells = dimension as u64 * dimension as u64;
        for address in 0..3 * cells {
            let channel = pages.page(address);
            assert_eq!(channel.index(), address / cells);
            assert!(channel.index() <= 2);
            assert_eq!(Channel::from_page(address / cells), Some(channel));
        }
    }
}

#[test]
fn page_boundaries() {
    let pages = ChannelPageMapper::new(CoordinateMapper::new(Traversal::Raster, 16));
    assert_eq!(pages.map(0), (Channel::Red, (0, 0)));
    assert_eq!(pages.map(255), (Channel::Red, (15, 15)));
    assert_eq!(pages.map(256), (Channel::Green, (0, 0)));
    assert_eq!(pages.map(511), (Channel::Green, (15, 15)));
    assert_eq!(pages.map(512), (Channel::Blue, (0, 0)));
    assert_eq!(pages.map(767), (Channel::Blue, (15, 15)));
    assert_eq!(pages.map(258), (Channel::Green, (2, 0)));
}

#[test]
fn page_mapper_follows_the_hilbert_curve() {
    let pages = ChannelPageMapper::new(CoordinateMapper::new(Traversal::Hilbert, 16));
    for address in 0..768u64 {
        let (channel, point) = pages.map(address);
        assert_eq!(channel.index(), address / 256);
        assert_eq!(point, fast_hilbert::h2xy::<u32>(address % 256));
    }
}

#[test]
fn channels_and_pages() {
    assert_eq!(Channel::from_page(0), Some(Channel::Red));
    assert_eq!(Channel::from_page(1), Some(Channel::Green));
    assert_eq!(Channel::from_page(2), Some(Channel::Blue));
    assert_eq!(Channel::from_page(3), None);
    assert_eq!(Channel::from_page(u64::MAX), None);
    assert_eq!(Channel::Red.index(), 0);
    assert_eq!(Channel::Green.index(), 1);
    assert_eq!(Channel::Blue.index(), 2);
}

#[test]
fn pixel_channels() {
    let mut pixel = Pixel { r: 1, g: 2, b: 3 };
    assert_eq!(pixel.get(Channel::Red), 1);
    assert_eq!(pixel.get(Channel::Green), 2);
    assert_eq!(pixel.get(Channel::Blue), 3);
    pixel.set(Channel::Green, 200);
    assert_eq!(pixel, Pixel { r: 1, g: 200, b: 3 });
    pixel.set(Channel::Red, 7);
    pixel.set(Channel::Blue, 9);
    assert_eq!(pixel, Pixel { r: 7, g: 200, b: 9 });
    assert_eq!(Pixel::splat(128), Pixel { r: 128, g: 128, b: 128 });
}
