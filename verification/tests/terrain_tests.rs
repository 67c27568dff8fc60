use loomz::store::{SaveFileReader, SaveFileWriter};
use loomz::terrain::{Terrain, TerrainType, UPDATE_SIZE, UPDATE_VIEW};

#[test]
fn set_cells() {
    let mut terrain = Terrain::init();
    terrain.set_world_size(32, 32);

    terrain.set_cells(1, 1, 3, 1, &[TerrainType::Sand; 3]);
    assert!(terrain.chunk(0).cells[1 * 16 + 0] == TerrainType::Grass);
    assert!(terrain.chunk(0).cells[1 * 16 + 1] == TerrainType::Sand);
    assert!(terrain.chunk(0).cells[1 * 16 + 2] == TerrainType::Sand);
    assert!(terrain.chunk(0).cells[1 * 16 + 3] == TerrainType::Sand);
    assert!(terrain.chunk(0).cells[1 * 16 + 4] == TerrainType::Grass);

    terrain.set_cells(15, 15, 2, 2, &[TerrainType::Sand; 4]);
    assert!(terrain.chunk(0).cells[15 * 16 + 15] == TerrainType::Sand);
    assert!(terrain.chunk(1).cells[15 * 16 + 0] == TerrainType::Sand);
    assert!(terrain.chunk(2).cells[0 * 16 + 15] == TerrainType::Sand);
    assert!(terrain.chunk(3).cells[0 * 16 + 0] == TerrainType::Sand);
}

#[test]
fn set_world_size_marks_every_chunk() {
    let mut terrain = Terrain::init();
    terrain.set_world_size(20, 40);
    // 2 chunks across, 3 chunks down
    let sync = terrain.sync();
    assert_eq!(sync.size, Some((20, 40)));
    assert_eq!(sync.view, None);
    assert_eq!(sync.batches, vec![0, 1, 2, 3, 4, 5]);
    let chunk = terrain.chunk(5);
    assert_eq!((chunk.x, chunk.y), (1, 2));
    assert_eq!(chunk.cells.len(), 256);
    assert!(chunk.cells.iter().all(|c| *c == TerrainType::Grass));
}

#[test]
fn sync_clears_updates() {
    let mut terrain = Terrain::init();
    terrain.set_world_size(32, 32);
    let view = [0.0f32.to_bits(), 0.0f32.to_bits(), 640.0f32.to_bits(), 480.0f32.to_bits()];
    terrain.set_view(view);
    let first = terrain.sync();
    assert_eq!(first.view, Some(view));
    assert_eq!(first.size, Some((32, 32)));
    let second = terrain.sync();
    assert_eq!(second.size, None);
    assert_eq!(second.view, None);
    assert!(second.batches.is_empty());
    assert_eq!(UPDATE_VIEW, 1);
    assert_eq!(UPDATE_SIZE, 2);
}

#[test]
fn set_cells_marks_touched_chunks_in_order() {
    let mut terrain = Terrain::init();
    terrain.set_world_size(32, 32);
    terrain.sync();
    terrain.set_cells(15, 15, 2, 2, &[TerrainType::Sand; 4]);
    let sync = terrain.sync();
    assert_eq!(sync.batches, vec![0, 1, 2, 3]);
    terrain.set_cells(20, 20, 1, 1, &[TerrainType::Sand]);
    terrain.set_cells(21, 20, 1, 1, &[TerrainType::Sand]);
    let sync = terrain.sync();
    assert_eq!(sync.batches, vec![3]);
}

#[test]
fn get_cell_reads_back_written_cells() {
    let mut terrain = Terrain::init();
    terrain.set_world_size(48, 32);
    let cells = [TerrainType::Sand, TerrainType::Grass, TerrainType::Sand, TerrainType::Sand, TerrainType::Grass, TerrainType::Sand];
    terrain.set_cells(14, 15, 3, 2, &cells);
    for k in 0..6u32 {
        let x = 14 + k % 3;
        let y = 15 + k / 3;
        assert!(terrain.get_cell(x, y) == cells[k as usize]);
    }
    assert!(terrain.get_cell(0, 0) == TerrainType::Grass);
}

#[test]
fn narrow_world_cells_land_in_their_chunk() {
    // A world 20 cells wide has 2 chunks per row: cell (0, 16) is in chunk
    // 2, at chunk position (0, 1), and cell (16, 0) in chunk 1.
    let mut terrain = Terrain::init();
    terrain.set_world_size(20, 20);
    terrain.set_cells(0, 16, 1, 1, &[TerrainType::Sand]);
    assert!(terrain.chunk(2).cells[0] == TerrainType::Sand);
    assert!(terrain.chunk(1).cells[0] == TerrainType::Grass);
    assert_eq!((terrain.chunk(2).x, terrain.chunk(2).y), (0, 1));
    assert!(terrain.get_cell(0, 16) == TerrainType::Sand);
    assert!(terrain.get_cell(16, 0) == TerrainType::Grass);
    terrain.set_cells(16, 0, 1, 1, &[TerrainType::Sand]);
    assert!(terrain.chunk(1).cells[0] == TerrainType::Sand);
    assert_eq!((terrain.chunk(1).x, terrain.chunk(1).y), (1, 0));
    terrain.set_cells(15, 18, 2, 1, &[TerrainType::Grass, TerrainType::Sand]);
    assert!(terrain.chunk(3).cells[2 * 16] == TerrainType::Sand);
    assert!(terrain.chunk(2).cells[2 * 16 + 15] == TerrainType::Grass);
}

#[test]
fn saved_terrain_loads_back() {
    let mut terrain = Terrain::init();
    terrain.set_world_size(32, 16);
    terrain.set_cells(17, 2, 2, 1, &[TerrainType::Sand; 2]);
    let view = [8.0f32.to_bits(), 16.0f32.to_bits(), 808.0f32.to_bits(), 616.0f32.to_bits()];
    terrain.set_view(view);

    let mut writer = SaveFileWriter::new();
    writer.write_u32(77);
    terrain.store(&mut writer);
    writer.write_u32(88);
    let bytes = writer.finalize();

    let mut reader = SaveFileReader::new(&bytes).ok().unwrap();
    assert_eq!(reader.read_u32(), 77);
    let mut loaded = Terrain::load(&mut reader).unwrap();
    assert_eq!(reader.read_u32(), 88);
    assert_eq!(loaded.get_cell(17, 2), TerrainType::Sand);
    assert_eq!(loaded.get_cell(18, 2), TerrainType::Sand);
    assert_eq!(loaded.get_cell(16, 2), TerrainType::Grass);
    assert_eq!(loaded.chunk(1).cells, terrain.chunk(1).cells);
    // The flags are kept; the chunks waiting to be synced are not.
    let sync = loaded.sync();
    assert_eq!(sync.size, Some((32, 16)));
    assert_eq!(sync.view, Some(view));
    assert_eq!(sync.batches, Vec::<usize>::new());
}

#[test]
fn load_refuses_other_words() {
    let mut writer = SaveFileWriter::new();
    // A 16 x 16 world needs one chunk, not two.
    writer.write(&[0, 0, 0, 0]);
    writer.write_u32(16);
    writer.write_u32(16);
    writer.write_u32(0);
    writer.write_slice(&[0u32; 512], 256);
    let bytes = writer.finalize();
    let mut reader = SaveFileReader::new(&bytes).ok().unwrap();
    assert!(Terrain::load(&mut reader).is_none());
    assert_eq!(reader.current_offset(), 2);

    let mut writer = SaveFileWriter::new();
    writer.write(&[0, 0, 0, 0]);
    writer.write_u32(16);
    writer.write_u32(16);
    writer.write_u32(0);
    let mut cells = [0u32; 256];
    cells[3] = 2;
    writer.write_slice(&cells, 256);
    let bytes = writer.finalize();
    let mut reader = SaveFileReader::new(&bytes).ok().unwrap();
    assert!(Terrain::load(&mut reader).is_none());
}

#[test]
fn saved_terrain_words_in_order() {
    let mut terrain = Terrain::init();
    terrain.set_world_size(16, 16);
    terrain.set_view([1, 2, 3, 4]);
    terrain.set_cells(0, 0, 1, 1, &[TerrainType::Sand]);
    let mut writer = SaveFileWriter::new();
    terrain.store(&mut writer);
    let bytes = writer.finalize();
    let mut reader = SaveFileReader::new(&bytes).ok().unwrap();
    // view, width, height, flags, chunk count, then the cells
    assert_eq!(reader.read(8), vec![1, 2, 3, 4, 16, 16, (UPDATE_VIEW | UPDATE_SIZE) as u32, 1]);
    assert_eq!(reader.read_u32(), 1);
    assert_eq!(reader.read_u32(), 0);
}
