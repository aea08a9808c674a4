use survival_tiles::amethyst::{spritesheet_from_tiled, SpritePosition};
use survival_tiles::{from_tiled, Grid2D, GridStorage2D, Tile, Vector2};

const MAP: &str = r#"<?xml version="1.0" encoding="UTF-8"?>
<map version="1.2" orientation="orthogonal" width="4" height="3" tilewidth="16" tileheight="16">
 <tileset firstgid="1" name="terrain" tilewidth="16" tileheight="16">
  <image source="terrain.png" width="64" height="40"/>
 </tileset>
 <layer name="ground" width="4" height="3">
  <data encoding="csv">
3,3,3,3,
3,3,3,3,
3,3,3,3
</data>
 </layer>
</map>
"#;

#[derive(Clone, Default)]
struct TestTiledData {
    data: u32,
}

impl Tile for TestTiledData {
    fn tile_value(&self) -> u32 {
        self.data
    }

    fn value(&self) -> u32 {
        self.data
    }

    fn set_value(&mut self, value: u32) {
        self.data = value;
    }
}

fn rows_of(map: &tiled::Map) -> Vec<Vec<u32>> {
    match &map.layers[0].tiles {
        tiled::LayerData::Finite(rows) => {
            rows.iter().map(|row| row.iter().map(|tile| tile.gid).collect()).collect()
        }
        tiled::LayerData::Infinite(_) => panic!("expected a finite layer"),
    }
}

#[test]
fn tiled() {
    let map = tiled::parse(MAP.as_bytes()).unwrap();
    let grid: GridStorage2D<TestTiledData> =
        from_tiled(map.width, map.height, &rows_of(&map)).unwrap();

    assert_eq!(grid.dimensions(), Vector2::new(4, 3));
    let mut count = 0;
    let mut it = grid.iter();
    while let Some((_, tile)) = it.next() {
        assert_eq!(tile.value(), 3);
        count += 1;
    }
    assert_eq!(count, 12);
}

#[test]
fn amethyst_export() {
    let map = tiled::parse(MAP.as_bytes()).unwrap();
    let images: Vec<Vector2> = map
        .tilesets
        .iter()
        .map(|sheet| Vector2::new(sheet.images[0].width as u32, sheet.images[0].height as u32))
        .collect();
    let serialized = spritesheet_from_tiled(&images, map.tile_width, map.tile_height);

    println!("{:?}", serialized);
    assert_eq!(serialized.len(), 1);
    assert_eq!(serialized[0].spritesheet_width, 64);
    assert_eq!(serialized[0].spritesheet_height, 40);
    assert_eq!(serialized[0].sprites.len(), 8);
    assert_eq!(
        serialized[0].sprites[7],
        SpritePosition { x: 48, y: 16, width: 16, height: 16, offsets: None }
    );
}
