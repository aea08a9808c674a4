use survival_tiles::amethyst::{spritesheet, spritesheet_from_tiled, SpritePosition};
use survival_tiles::{from_tiled, Error, Grid2D, GridStorage2D, Tile, Vector2};

#[derive(Clone, Default)]
struct TestTiledData {
    data: u32,
}

impl Tile for TestTiledData {
    fn tile_value(&self) -> u32 {
        self.data
    }

    fn value(&self) -> u32 {
        self.data
    }

    fn set_value(&mut self, value: u32) {
        self.data = value;
    }
}

#[test]
fn tile_holds_its_value() {
    let mut tile = TestTiledData::default();
    assert_eq!(tile.value(), 0);
    tile.set_value(3);
    assert_eq!(tile.value(), 3);
}

#[test]
fn layer_fills_the_grid_row_by_row() {
    let rows = vec![vec![1, 2, 3], vec![4, 5, 6]];
    let grid: GridStorage2D<TestTiledData> = from_tiled(3, 2, &rows).unwrap();
    assert_eq!(grid.dimensions(), Vector2::new(3, 2));
    for y in 0..2u32 {
        for x in 0..3u32 {
            let cell = grid.get(Vector2::new(x, y)).unwrap();
            assert_eq!(cell.value(), rows[y as usize][x as usize]);
        }
    }
    let values: Vec<u32> = grid.iter().collect().iter().map(|(_, t)| t.value()).collect();
    assert_eq!(values, vec![1, 2, 3, 4, 5, 6]);
}

#[test]
fn uniform_layer_gives_uniform_grid() {
    let rows = vec![vec![3u32; 4]; 4];
    let grid: GridStorage2D<TestTiledData> = from_tiled(4, 4, &rows).unwrap();
    let mut count = 0;
    let mut it = grid.iter();
    while let Some((_, tile)) = it.next() {
        assert_eq!(tile.value(), 3);
        count += 1;
    }
    assert_eq!(count, 16);
}

#[test]
fn short_layer_leaves_cells_at_default() {
    let rows = vec![vec![9], vec![], vec![8, 7]];
    let grid: GridStorage2D<TestTiledData> = from_tiled(2, 4, &rows).unwrap();
    let values: Vec<u32> = grid.iter().collect().iter().map(|(_, t)| t.value()).collect();
    assert_eq!(values, vec![9, 0, 0, 0, 8, 7, 0, 0]);
}

#[test]
fn layer_wider_than_the_grid_is_refused() {
    let rows = vec![vec![1, 2], vec![3, 4, 5], vec![6, 7, 8, 9]];
    match from_tiled::<TestTiledData>(2, 3, &rows) {
        Err(Error::OutOfBounds { dimensions, coordinate }) => {
            assert_eq!(dimensions, Vector2::new(2, 3));
            assert_eq!(coordinate, Vector2::new(2, 1));
        }
        _ => panic!("expected OutOfBounds"),
    }
}

#[test]
fn layer_taller_than_the_grid_is_refused() {
    let rows = vec![vec![1, 2], vec![3, 4], vec![], vec![5]];
    match from_tiled::<TestTiledData>(2, 2, &rows) {
        Err(Error::OutOfBounds { dimensions, coordinate }) => {
            assert_eq!(dimensions, Vector2::new(2, 2));
            assert_eq!(coordinate, Vector2::new(0, 3));
        }
        _ => panic!("expected OutOfBounds"),
    }
    let empty_rows = vec![vec![1, 2], vec![3, 4], vec![], vec![]];
    assert!(from_tiled::<TestTiledData>(2, 2, &empty_rows).is_ok());
}

#[test]
fn sheet_is_cut_into_whole_tiles() {
    let sheet = spritesheet(Vector2::new(70, 40), 16, 16);
    assert_eq!(sheet.spritesheet_width, 70);
    assert_eq!(sheet.spritesheet_height, 40);
    assert_eq!(sheet.sprites.len(), 8);
    let origins: Vec<(u32, u32)> = sheet.sprites.iter().map(|s| (s.x, s.y)).collect();
    assert_eq!(
        origins,
        vec![(0, 0), (16, 0), (32, 0), (48, 0), (0, 16), (16, 16), (32, 16), (48, 16)]
    );
    assert_eq!(
        sheet.sprites[5],
        SpritePosition { x: 16, y: 16, width: 16, height: 16, offsets: None }
    );
}

#[test]
fn sheet_with_oblong_tiles() {
    let sheet = spritesheet(Vector2::new(30, 20), 10, 5);
    assert_eq!(sheet.sprites.len(), 12);
    assert_eq!(
        sheet.sprites[4],
        SpritePosition { x: 10, y: 5, width: 10, height: 5, offsets: None }
    );
    assert_eq!(
        sheet.sprites[11],
        SpritePosition { x: 20, y: 15, width: 10, height: 5, offsets: None }
    );
}

#[test]
fn sheet_smaller_than_a_tile_has_no_sprites() {
    assert_eq!(spritesheet(Vector2::new(15, 64), 16, 16).sprites.len(), 0);
    assert_eq!(spritesheet(Vector2::new(64, 15), 16, 16).sprites.len(), 0);
    assert_eq!(spritesheet(Vector2::new(0, 0), 1, 1).sprites.len(), 0);
}

#[test]
fn one_sheet_for_each_image() {
    let images = vec![Vector2::new(32, 32), Vector2::new(48, 16), Vector2::new(8, 8)];
    let sheets = spritesheet_from_tiled(&images, 16, 16);
    assert_eq!(sheets.len(), 3);
    assert_eq!(sheets[0].sprites.len(), 4);
    assert_eq!(sheets[1].sprites.len(), 3);
    assert_eq!(sheets[2].sprites.len(), 0);
    assert_eq!(sheets[1].spritesheet_width, 48);
    assert_eq!(sheets[1].spritesheet_height, 16);
    assert_eq!(sheets[0], spritesheet(Vector2::new(32, 32), 16, 16));
    assert_eq!(
        sheets[1].sprites[2],
        SpritePosition { x: 32, y: 0, width: 16, height: 16, offsets: None }
    );
    assert!(spritesheet_from_tiled(&Vec::new(), 16, 16).is_empty());
}
