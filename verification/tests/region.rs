use survival_tiles::{Grid2D, GridRegionIter, GridRegionIterMut, GridStorage2D, Vector2, Vector4};

fn numbered(width: u32, height: u32) -> GridStorage2D<u32> {
    let mut grid = GridStorage2D::<u32>::new(Vector2::new(width, height));
    for y in 0..height {
        for x in 0..width {
            grid.set(Vector2::new(x, y), y * width + x).unwrap();
        }
    }
    grid
}

#[test]
fn full_walk_is_row_major() {
    let grid = numbered(4, 3);
    let items = grid.iter().collect();
    assert_eq!(items.len(), 12);
    for (k, (coord, value)) in items.iter().enumerate() {
        assert_eq!(*coord, Vector2::new(k as u32 % 4, k as u32 / 4));
        assert_eq!(**value, k as u32);
    }
}

#[test]
fn full_walk_visits_each_cell_once() {
    let grid = numbered(5, 2);
    let mut seen = vec![0u32; 10];
    let mut it = grid.iter();
    while let Some((coord, _)) = it.next() {
        seen[(coord.y * 5 + coord.x) as usize] += 1;
    }
    assert_eq!(seen, vec![1u32; 10]);
}

#[test]
fn sub_rectangle_walk_counts_its_cells() {
    let grid = numbered(8, 8);
    let items = grid.iter_region(Vector4::new(2, 3, 5, 4)).collect();
    assert_eq!(items.len(), 8);
    let coords: Vec<(u32, u32)> = items.iter().map(|(c, _)| (c.x, c.y)).collect();
    assert_eq!(
        coords,
        vec![(2, 3), (3, 3), (4, 3), (5, 3), (2, 4), (3, 4), (4, 4), (5, 4)]
    );
    let values: Vec<u32> = items.iter().map(|(_, v)| **v).collect();
    assert_eq!(values, vec![26, 27, 28, 29, 34, 35, 36, 37]);
}

#[test]
fn single_cell_region() {
    let grid = numbered(3, 3);
    let items = grid.iter_region(Vector4::new(2, 2, 2, 2)).collect();
    assert_eq!(items.len(), 1);
    assert_eq!(items[0].0, Vector2::new(2, 2));
    assert_eq!(*items[0].1, 8);
}

#[test]
fn walk_ends_for_good() {
    let grid = numbered(2, 2);
    let mut it = grid.iter();
    let mut count = 0;
    while it.next().is_some() {
        count += 1;
    }
    assert_eq!(count, 4);
    assert!(it.next().is_none());
    assert!(it.next().is_none());
}

#[test]
fn walk_stops_at_the_edge_of_the_grid() {
    let grid = numbered(3, 3);
    // the fourth column does not exist: the walk ends after three cells
    let wide = grid.iter_region(Vector4::new(0, 0, 3, 1)).collect();
    assert_eq!(wide.len(), 3);
    assert_eq!(wide[2].0, Vector2::new(2, 0));
    // the fourth row does not exist: the walk ends after the third row
    let tall = grid.iter_region(Vector4::new(1, 1, 2, 3)).collect();
    assert_eq!(tall.len(), 4);
    assert_eq!(tall[3].0, Vector2::new(2, 2));
    // a region that starts outside yields nothing, again and again
    let mut outside = grid.iter_region(Vector4::new(3, 0, 5, 5));
    assert!(outside.next().is_none());
    assert!(outside.next().is_none());
}

#[test]
fn region_with_bounds_in_reverse() {
    let grid = numbered(4, 4);
    // no row lies between row 2 and row 1
    assert_eq!(grid.iter_region(Vector4::new(0, 2, 3, 1)).collect().len(), 0);
    // a last column before the first leaves the first column of each row
    let items = grid.iter_region(Vector4::new(3, 0, 1, 2)).collect();
    let coords: Vec<(u32, u32)> = items.iter().map(|(c, _)| (c.x, c.y)).collect();
    assert_eq!(coords, vec![(3, 0), (3, 1), (3, 2)]);
}

#[test]
fn region_up_to_the_largest_coordinate() {
    let grid = numbered(2, 2);
    let items = grid.iter_region(Vector4::new(0, 0, u32::MAX, u32::MAX)).collect();
    assert_eq!(items.len(), 2);
    let none = grid.iter_region(Vector4::new(u32::MAX, u32::MAX, u32::MAX, u32::MAX)).collect();
    assert_eq!(none.len(), 0);
}

#[test]
fn mutable_walk_writes_the_region() {
    let mut grid = GridStorage2D::<u32>::new(Vector2::new(6, 5));
    let mut visited = Vec::new();
    {
        let mut it = grid.iter_region_mut(Vector4::new(1, 1, 3, 2));
        while let Some((coord, cell)) = it.next() {
            *cell = 7;
            visited.push((coord.x, coord.y));
        }
        assert!(it.next().is_none());
    }
    assert_eq!(visited, vec![(1, 1), (2, 1), (3, 1), (1, 2), (2, 2), (3, 2)]);
    for y in 0..5 {
        for x in 0..6 {
            let inside = (1..=3).contains(&x) && (1..=2).contains(&y);
            assert_eq!(grid.get(Vector2::new(x, y)), Some(&if inside { 7 } else { 0 }));
        }
    }
}

#[test]
fn mutable_walk_over_everything() {
    let mut grid = GridStorage2D::<u32>::new(Vector2::new(3, 4));
    let mut n = 0;
    let mut it = grid.iter_mut();
    while let Some((coord, cell)) = it.next() {
        assert_eq!(coord, Vector2::new(n % 3, n / 3));
        *cell = n;
        n += 1;
    }
    assert_eq!(n, 12);
    let values: Vec<u32> = grid.iter().collect().iter().map(|(_, v)| **v).collect();
    assert_eq!(values, (0..12).collect::<Vec<u32>>());
}

#[test]
fn written_rectangle_reads_back() {
    let mut grid = GridStorage2D::<u8>::new(Vector2::new(9, 7));
    let region = Vector4::new(2, 1, 6, 5);
    let mut written = 0;
    for y in 1..=5 {
        for x in 2..=6 {
            if grid.set(Vector2::new(x, y), 3).is_ok() {
                written += 1;
            }
        }
    }
    let items = grid.iter_region(region).collect();
    assert_eq!(items.len(), written);
    assert_eq!(written, 25);
    assert!(items.iter().all(|(_, v)| **v == 3));
}

#[test]
fn walks_built_by_hand() {
    let mut grid = numbered(3, 2);
    let items = GridRegionIter::new(Vector4::new(1, 0, 2, 1), &grid).collect();
    let values: Vec<u32> = items.iter().map(|(_, v)| **v).collect();
    assert_eq!(values, vec![1, 2, 4, 5]);
    let mut it = GridRegionIterMut::new(Vector4::new(0, 1, 0, 1), &mut grid);
    match it.next() {
        Some((coord, cell)) => {
            assert_eq!(coord, Vector2::new(0, 1));
            assert_eq!(*cell, 3);
            *cell = 30;
        }
        None => panic!("expected a cell"),
    }
    assert!(it.next().is_none());
    assert_eq!(grid.get(Vector2::new(0, 1)), Some(&30));
}
