use fc5_tool::blending::{
    bitand, border_chunks, calculate_blending_heights, decode_heightmap, directional_heights, BlendingData,
    Chunk, Direction, HeightmapError,
};
use fc5_tool::coord::Coord;
use fc5_tool::blending::Direction::{East, North, South, West};

fn pack(values: &[u16]) -> Vec<i64> {
    values
        .chunks(7)
        .map(|group| {
            let mut w: u64 = 0;
            for (j, v) in group.iter().enumerate() {
                w |= (*v as u64 & 0x1ff) << (9 * j);
            }
            w as i64
        })
        .collect()
}

#[test]
fn bitand_masks() {
    assert_eq!(bitand(0xffff_ffff_ffff_ffff, 0x1ff), 0x1ff);
    assert_eq!(bitand(0x1234, 0x0f0), 0x030);
}

#[test]
fn all_ones_decode_to_447() {
    let data = vec![i64::MAX; 37];
    let grid = decode_heightmap(&data).unwrap();
    for row in grid {
        for cell in row {
            assert_eq!(cell, 447);
        }
    }
    let data = vec![-1i64; 40];
    let grid = decode_heightmap(&data).unwrap();
    assert!(grid.iter().all(|row| row.iter().all(|&v| v == 447)));
}

#[test]
fn decode_reads_fields_in_order() {
    let values: Vec<u16> = (0..256u16).map(|i| (i * 3) % 512).collect();
    let grid = decode_heightmap(&pack(&values)).unwrap();
    for r in 0..16 {
        for col in 0..16 {
            assert_eq!(grid[r][col], values[16 * r + col] as i16 - 64);
        }
    }
}

#[test]
fn short_tables_are_refused() {
    assert_eq!(decode_heightmap(&vec![0i64; 36]), Err(HeightmapError::TooShort));
    assert!(decode_heightmap(&vec![0i64; 37]).is_ok());
}

#[test]
fn border_averages_floor_the_mean() {
    let mut grid = [[0i16; 16]; 16];
    for (r, row) in grid.iter_mut().enumerate() {
        for (col, cell) in row.iter_mut().enumerate() {
            *cell = (r * 16 + col) as i16 - 100;
        }
    }
    let avg = calculate_blending_heights(&grid);
    let floor4 = |a: i16, b: i16, c: i16, d: i16| ((a as i32 + b as i32 + c as i32 + d as i32) as f64 / 4.0).floor() as i32;
    assert_eq!(avg[0], floor4(grid[0][15], grid[0][14], grid[0][13], grid[0][12]));
    assert_eq!(avg[3], floor4(grid[0][3], grid[0][2], grid[0][1], grid[0][0]));
    assert_eq!(avg[4], floor4(grid[0][0], grid[1][0], grid[2][0], grid[3][0]));
    assert_eq!(avg[8], floor4(grid[15][15], grid[14][15], grid[13][15], grid[12][15]));
    assert_eq!(avg[15], floor4(grid[15][12], grid[15][13], grid[15][14], grid[15][15]));
    assert_eq!(avg[0], -87);
    assert_eq!(avg[3], -99);
}

#[test]
fn negative_averages_round_down() {
    let mut grid = [[0i16; 16]; 16];
    grid[0][15] = -1;
    let avg = calculate_blending_heights(&grid);
    assert_eq!(avg[0], -1);
    assert_eq!(avg[1], 0);
}

#[test]
fn north_west_corner_of_uniform_grid() {
    let grid = decode_heightmap(&vec![i64::MAX; 37]).unwrap();
    let avg = calculate_blending_heights(&grid);
    assert_eq!(avg, [447; 16]);
    let out = directional_heights(&avg, [North, West]);
    for (i, slot) in out.iter().enumerate() {
        if i < 7 {
            assert_eq!(*slot, Some(447));
        } else {
            assert_eq!(*slot, None);
        }
    }
}

#[test]
fn directions_own_their_slots() {
    let avg: [i32; 16] = core::array::from_fn(|i| i as i32 * 10);
    let n = directional_heights(&avg, [North, North]);
    assert_eq!(&n[0..4], &[Some(0), Some(10), Some(20), Some(30)]);
    assert!(n[4..].iter().all(|s| s.is_none()));
    let w = directional_heights(&avg, [West, West]);
    assert_eq!(&w[3..7], &[Some(40), Some(50), Some(60), Some(70)]);
    let s = directional_heights(&avg, [South, South]);
    assert_eq!(&s[7..12], &[Some(80), Some(90), Some(100), Some(110), Some(110)]);
    let e = directional_heights(&avg, [East, East]);
    assert_eq!(&e[12..16], &[Some(120), Some(130), Some(140), Some(150)]);
    let nw = directional_heights(&avg, [North, West]);
    assert_eq!(nw[3], Some(40));
    let wn = directional_heights(&avg, [West, North]);
    assert_eq!(wn[3], Some(40));
    assert_eq!(wn, nw);
    let es = directional_heights(&avg, [East, South]);
    assert_eq!(es, directional_heights(&avg, [South, East]));
}

#[test]
fn border_of_a_square() {
    let tl = Coord { x: 0, z: 0 };
    let br = Coord { x: 2, z: 3 };
    let list = border_chunks(tl, br);
    let expected = vec![
        (Coord { x: 0, z: 0 }, [North, West]),
        (Coord { x: 2, z: 0 }, [North, East]),
        (Coord { x: 0, z: 3 }, [South, West]),
        (Coord { x: 2, z: 3 }, [South, East]),
        (Coord { x: 1, z: 0 }, [North, South]),
        (Coord { x: 1, z: 3 }, [North, South]),
        (Coord { x: 0, z: 1 }, [East, West]),
        (Coord { x: 2, z: 1 }, [East, West]),
        (Coord { x: 0, z: 2 }, [East, West]),
        (Coord { x: 2, z: 2 }, [East, West]),
    ];
    assert_eq!(list, expected);
    assert_eq!(border_chunks(tl, Coord { x: 1, z: 1 }).len(), 4);
}

#[test]
fn uniform_blending_drops_light_and_sets_sections() {
    let mut chunk = Chunk::new(Coord { x: 1, z: 2 }, Coord { x: 33, z: 66 }, None);
    chunk.force_blending();
    assert!(!chunk.light_valid);
    assert_eq!(chunk.blending, Some(BlendingData { min_section: -4, max_section: 20, heights: None }));
    assert_eq!(chunk.absolute_coord, Coord { x: 33, z: 66 });
}

#[test]
fn blending_with_heights() {
    let mut chunk = Chunk::new(Coord { x: 0, z: 0 }, Coord { x: 0, z: 0 }, Some(vec![i64::MAX; 37]));
    chunk.force_blending_with_heights([South, East]).unwrap();
    assert!(!chunk.light_valid);
    let b = chunk.blending.unwrap();
    assert_eq!((b.min_section, b.max_section), (-4, 20));
    let h = b.heights.unwrap();
    assert!(h[0..7].iter().all(|s| s.is_none()));
    assert!(h[7..16].iter().all(|s| *s == Some(447)));
}

#[test]
fn blending_with_heights_errors() {
    let mut missing = Chunk::new(Coord { x: 0, z: 0 }, Coord { x: 0, z: 0 }, None);
    assert_eq!(missing.force_blending_with_heights([North, West]), Err(HeightmapError::Missing));
    assert!(missing.light_valid && missing.blending.is_none());
    let mut short = Chunk::new(Coord { x: 0, z: 0 }, Coord { x: 0, z: 0 }, Some(vec![0; 10]));
    assert_eq!(short.force_blending_with_heights([North, West]), Err(HeightmapError::TooShort));
    assert!(short.light_valid && short.blending.is_none());
}
