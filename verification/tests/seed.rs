use seed_io::formats::seed::{SeedReader, SeedWriter};

#[test]
fn test_seed_reader_can_read() {
    let reader = SeedReader::new();

    assert!(reader.can_read(b"@meta:\n  profile: Seed/3D"));
    assert!(reader.can_read(b"Frame:\n  width: 100px"));
    assert!(reader.can_read(b"Part:\n  geometry: Box"));
    assert!(!reader.can_read(b"random text"));
    assert!(!reader.can_read(&[0xFF, 0xFE, 0x00]));
}

#[test]
fn test_seed_writer_extensions() {
    let writer = SeedWriter::new();
    assert_eq!(writer.name(), "seed");
    assert_eq!(writer.extension(), "seed");
}

#[test]
fn test_seed_reader_extensions() {
    let reader = SeedReader::new();
    assert_eq!(reader.name(), "seed");
    assert_eq!(reader.extensions(), &["seed"]);
}
