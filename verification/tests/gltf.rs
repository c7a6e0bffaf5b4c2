use seed_io::error::IoError;
use seed_io::formats::gltf::glb::{frame_glb, parse_glb};
use seed_io::formats::gltf::nodes::{hierarchy_roots, node_tree, NodeLinks, PlacedNode};
use seed_io::formats::gltf::reader::{
    alpha_mode_from_name, sampler_from_gltf, sniff_mime, wrap_mode_from_gltf, GltfReader,
};
use seed_io::formats::gltf::schema::{
    default_alpha_mode, default_interpolation, default_primitive_mode, default_wrap_mode, Accessor,
    Asset, Buffer, BufferView, Image, Primitive, Sampler as GltfSampler, Texture as GltfTexture,
    COMPONENT_FLOAT, COMPONENT_UNSIGNED_BYTE, COMPONENT_UNSIGNED_INT, COMPONENT_UNSIGNED_SHORT,
};
use seed_io::formats::gltf::writer::{
    alpha_mode_name, data_uri, sampler_to_gltf, GltfWriter, ResourceBuilder,
};
use seed_io::scene::{AlphaMode, Filter, ImageSource, Sampler, Texture, Wrap};

#[test]
fn test_can_read_glb() {
    let reader = GltfReader::new();

    // GLB magic number
    let glb_header = b"glTF\x02\x00\x00\x00";
    assert!(reader.can_read(glb_header));

    // JSON glTF
    let json_gltf = br#"{"asset": {"version": "2.0"}}"#;
    assert!(reader.can_read(json_gltf));

    // Random data
    assert!(!reader.can_read(b"random"));
}

#[test]
fn test_decode_data_uri() {
    let reader = GltfReader::new();

    // Simple base64 data URI
    let uri = "data:application/octet-stream;base64,SGVsbG8=";
    let result = reader.decode_data_uri(uri).unwrap();
    assert_eq!(result, b"Hello");
}

#[test]
fn can_read_json_needs_asset_key_and_brace() {
    let reader = GltfReader::new();
    assert!(reader.can_read(b"  \n {\"asset\":{}}"));
    assert!(!reader.can_read(b"{\"scene\": 0}"));
    assert!(!reader.can_read(b"[\"asset\"]"));
    assert!(!reader.can_read(&[0xFF, 0xFE, 0x7B]));
}

#[test]
fn reader_and_writer_names() {
    let reader = GltfReader::new();
    assert_eq!(reader.name(), "gltf");
    assert_eq!(reader.extensions(), vec!["gltf", "glb"]);
    let writer = GltfWriter::new();
    assert_eq!(writer.name(), "gltf");
    assert_eq!(writer.extension(), "glb");
}

#[test]
fn load_buffer_uri_rejects_external_uris() {
    let reader = GltfReader::new();
    match reader.load_buffer_uri("buffer.bin") {
        Err(IoError::Unsupported(m)) => {
            assert_eq!(m, "external buffer URIs not supported: buffer.bin")
        }
        other => panic!("unexpected {:?}", other),
    }
}

#[test]
fn data_uri_errors() {
    let reader = GltfReader::new();
    match reader.load_buffer_uri("data:no-comma") {
        Err(IoError::InvalidData(m)) => assert_eq!(m, "invalid data URI"),
        other => panic!("unexpected {:?}", other),
    }
    match reader.load_buffer_uri("data:text/plain,hello") {
        Err(IoError::Unsupported(m)) => assert_eq!(m, "URL-encoded data URIs not supported"),
        other => panic!("unexpected {:?}", other),
    }
    match reader.load_buffer_uri("data:;base64,@@@") {
        Err(IoError::InvalidData(m)) => assert!(m.starts_with("base64 decode error: ")),
        other => panic!("unexpected {:?}", other),
    }
}

#[test]
fn data_uri_roundtrip() {
    let reader = GltfReader::new();
    let bytes: Vec<u8> = (0u8..=255).collect();
    let uri = data_uri(&bytes);
    assert!(uri.starts_with("data:application/octet-stream;base64,"));
    assert_ne!(uri.as_bytes()[37..].to_vec(), bytes);
    assert_eq!(reader.load_buffer_uri(&uri).unwrap(), bytes);
    assert_eq!(data_uri(b"Hello"), "data:application/octet-stream;base64,SGVsbG8=");
}

#[test]
fn glb_frame_layout() {
    let glb = frame_glb(b"{}", b"\x01\x02\x03");
    // header (12) + JSON chunk (8 + 4) + BIN chunk (8 + 4)
    assert_eq!(glb.len(), 36);
    assert_eq!(&glb[0..4], b"glTF");
    assert_eq!(&glb[4..8], &2u32.to_le_bytes());
    assert_eq!(&glb[8..12], &36u32.to_le_bytes());
    assert_eq!(&glb[12..16], &4u32.to_le_bytes());
    assert_eq!(&glb[16..20], b"JSON");
    assert_eq!(&glb[20..24], b"{}  ");
    assert_eq!(&glb[24..28], &4u32.to_le_bytes());
    assert_eq!(&glb[28..32], b"BIN\0");
    assert_eq!(&glb[32..36], b"\x01\x02\x03\x00");
}

#[test]
fn glb_roundtrip() {
    let json = br#"{"asset":{"version":"2.0"}}"#;
    let bin = [9u8, 8, 7, 6, 5];
    let glb = frame_glb(json, &bin);
    let chunks = parse_glb(&glb).unwrap();
    assert_eq!(&chunks.json[..json.len()], &json[..]);
    assert!(chunks.json[json.len()..].iter().all(|&b| b == b' '));
    assert_eq!(chunks.json.len() % 4, 0);
    let b = chunks.bin.unwrap();
    assert_eq!(&b[..5], &bin[..]);
    assert_eq!(b.len(), 8);

    let no_bin = parse_glb(&frame_glb(b"{}", &[])).unwrap();
    assert_eq!(no_bin.json, b"{}  ");
    assert!(no_bin.bin.is_none());
}

#[test]
fn glb_errors() {
    match parse_glb(b"glTF") {
        Err(IoError::InvalidData(m)) => assert_eq!(m, "GLB file too short"),
        other => panic!("unexpected {:?}", other),
    }
    match parse_glb(b"xxxx\x02\x00\x00\x00\x0c\x00\x00\x00") {
        Err(IoError::InvalidData(m)) => assert_eq!(m, "invalid GLB magic"),
        other => panic!("unexpected {:?}", other),
    }
    match parse_glb(b"glTF\x01\x00\x00\x00\x0c\x00\x00\x00") {
        Err(IoError::Unsupported(m)) => assert_eq!(m, "GLB version 1 not supported"),
        other => panic!("unexpected {:?}", other),
    }
    let mut long = b"glTF\x02\x00\x00\x00\x20\x00\x00\x00".to_vec();
    long.extend_from_slice(&100u32.to_le_bytes());
    long.extend_from_slice(b"JSON");
    long.extend_from_slice(b"{}  ");
    match parse_glb(&long) {
        Err(IoError::InvalidData(m)) => assert_eq!(m, "GLB chunk extends past end of file"),
        other => panic!("unexpected {:?}", other),
    }
    match parse_glb(b"glTF\x02\x00\x00\x00\x0c\x00\x00\x00") {
        Err(IoError::InvalidData(m)) => assert_eq!(m, "GLB missing JSON chunk"),
        other => panic!("unexpected {:?}", other),
    }
}

fn buffer(byte_length: usize, uri: Option<&str>) -> Buffer {
    Buffer { byte_length, uri: uri.map(|u| u.to_string()), name: None }
}

#[test]
fn glb_buffers() {
    let reader = GltfReader::new();
    let bin = [1u8, 2, 3, 4, 0, 0, 0, 0];
    let bufs = vec![buffer(5, None), buffer(5, Some("data:;base64,SGVsbG8="))];
    let loaded = reader.load_buffers_glb(&bufs, Some(&bin)).unwrap();
    assert_eq!(loaded, vec![vec![1u8, 2, 3, 4, 0], b"Hello".to_vec()]);
    match reader.load_buffers_glb(&bufs, None) {
        Err(IoError::InvalidData(m)) => assert_eq!(m, "GLB buffer 0 missing binary data"),
        other => panic!("unexpected {:?}", other),
    }
    match reader.load_buffers_glb(&[buffer(1, None), buffer(1, None)], Some(&bin)) {
        Err(IoError::InvalidData(m)) => assert_eq!(m, "buffer 1 has no data"),
        other => panic!("unexpected {:?}", other),
    }
    match reader.load_buffers_json(&[buffer(1, None)]) {
        Err(IoError::InvalidData(m)) => assert_eq!(m, "buffer 0 has no URI"),
        other => panic!("unexpected {:?}", other),
    }
}

fn view(buffer: usize, byte_offset: usize, byte_length: usize, byte_stride: Option<usize>) -> BufferView {
    BufferView { buffer, byte_offset, byte_length, byte_stride, target: None, name: None }
}

fn scalar(buffer_view: Option<usize>, component_type: u32, count: usize) -> Accessor {
    Accessor {
        buffer_view,
        byte_offset: 0,
        component_type,
        count,
        accessor_type: "SCALAR".to_string(),
        normalized: false,
        name: None,
    }
}

#[test]
fn read_indices_of_each_width() {
    let reader = GltfReader::new();
    let buffers = vec![vec![1u8, 0, 2, 0, 3, 0, 0xFF, 0xFF, 0x01, 0x00, 0x01, 0x00, 7, 8]];
    let views = vec![view(0, 0, 6, None), view(0, 6, 4, None), view(0, 12, 2, None), view(0, 0, 6, Some(4))];
    let accessors = vec![
        scalar(Some(0), COMPONENT_UNSIGNED_SHORT, 3),
        scalar(Some(1), COMPONENT_UNSIGNED_INT, 1),
        scalar(Some(2), COMPONENT_UNSIGNED_BYTE, 2),
        scalar(Some(3), COMPONENT_UNSIGNED_SHORT, 2),
    ];
    assert_eq!(reader.read_accessor_indices(&accessors, &views, &buffers, 0).unwrap(), vec![1, 2, 3]);
    assert_eq!(reader.read_accessor_indices(&accessors, &views, &buffers, 1).unwrap(), vec![0x0001FFFF]);
    assert_eq!(reader.read_accessor_indices(&accessors, &views, &buffers, 2).unwrap(), vec![7, 8]);
    assert_eq!(reader.read_accessor_indices(&accessors, &views, &buffers, 3).unwrap(), vec![1, 3]);
}

#[test]
fn read_indices_errors() {
    let reader = GltfReader::new();
    let buffers = vec![vec![0u8; 4]];
    let views = vec![view(0, 0, 4, None), view(3, 0, 4, None)];
    let mut vec3 = scalar(Some(0), COMPONENT_UNSIGNED_SHORT, 1);
    vec3.accessor_type = "VEC3".to_string();
    let accessors = vec![
        vec3,
        scalar(None, COMPONENT_UNSIGNED_SHORT, 1),
        scalar(Some(9), COMPONENT_UNSIGNED_SHORT, 1),
        scalar(Some(1), COMPONENT_UNSIGNED_SHORT, 1),
        scalar(Some(0), COMPONENT_FLOAT, 1),
        scalar(Some(0), COMPONENT_UNSIGNED_INT, 2),
    ];
    let msg = |i: usize| match reader.read_accessor_indices(&accessors, &views, &buffers, i) {
        Err(IoError::InvalidData(m)) => m,
        other => panic!("unexpected {:?}", other),
    };
    assert_eq!(msg(0), "expected SCALAR for indices, got VEC3");
    assert_eq!(msg(1), "accessor missing buffer view");
    assert_eq!(msg(2), "invalid buffer view 9");
    assert_eq!(msg(3), "invalid buffer 3");
    assert_eq!(msg(4), "unsupported index component type: 5126");
    assert_eq!(msg(5), "index data out of bounds");
    assert_eq!(msg(6), "invalid accessor 6");
}

#[test]
fn indices_written_read_back() {
    let reader = GltfReader::new();
    let mut b = ResourceBuilder::new();
    let small = [0u32, 1, 2, 2, 1, 65535];
    let large = [0u32, 70000, 5];
    let a0 = b.add_accessor_indices(&small);
    let a1 = b.add_accessor_indices(&large);
    assert_eq!(b.accessors[a0].component_type, COMPONENT_UNSIGNED_SHORT);
    assert_eq!(b.accessors[a1].component_type, COMPONENT_UNSIGNED_INT);
    assert_eq!(b.buffer_data.len(), 6 * 2 + 3 * 4);
    let buffers = vec![b.buffer_data.clone()];
    assert_eq!(reader.read_accessor_indices(&b.accessors, &b.buffer_views, &buffers, a0).unwrap(), small.to_vec());
    assert_eq!(reader.read_accessor_indices(&b.accessors, &b.buffer_views, &buffers, a1).unwrap(), large.to_vec());
}

#[test]
fn buffer_view_raw() {
    let reader = GltfReader::new();
    let buffers = vec![vec![10u8, 11, 12, 13]];
    let views = vec![view(0, 1, 2, None), view(0, 3, 2, None)];
    assert_eq!(reader.read_buffer_view_raw(&views, &buffers, 0).unwrap(), vec![11, 12]);
    match reader.read_buffer_view_raw(&views, &buffers, 1) {
        Err(IoError::InvalidData(m)) => assert_eq!(m, "buffer view out of bounds"),
        other => panic!("unexpected {:?}", other),
    }
    match reader.read_buffer_view_raw(&views, &buffers, 2) {
        Err(IoError::InvalidData(m)) => assert_eq!(m, "invalid buffer view 2"),
        other => panic!("unexpected {:?}", other),
    }
}

#[test]
fn sampler_codes() {
    let s = Sampler { mag_filter: Filter::Nearest, min_filter: Filter::Linear, wrap_u: Wrap::ClampToEdge, wrap_v: Wrap::MirroredRepeat };
    let g = sampler_to_gltf(&s);
    assert_eq!(g.mag_filter, Some(9728));
    assert_eq!(g.min_filter, Some(9729));
    assert_eq!(g.wrap_s, 33071);
    assert_eq!(g.wrap_t, 33648);
    assert_eq!(sampler_from_gltf(&g), s);
    let mipmap = GltfSampler { mag_filter: None, min_filter: Some(9986), wrap_s: 10497, wrap_t: 1, name: None };
    assert_eq!(
        sampler_from_gltf(&mipmap),
        Sampler { mag_filter: Filter::Linear, min_filter: Filter::Nearest, wrap_u: Wrap::Repeat, wrap_v: Wrap::Repeat }
    );
    assert_eq!(wrap_mode_from_gltf(33648), Wrap::MirroredRepeat);
    assert_eq!(Sampler::default(), Sampler { mag_filter: Filter::Linear, min_filter: Filter::Linear, wrap_u: Wrap::Repeat, wrap_v: Wrap::Repeat });
}

#[test]
fn alpha_mode_names() {
    for m in [AlphaMode::Opaque, AlphaMode::Mask, AlphaMode::Blend] {
        assert_eq!(alpha_mode_from_name(&alpha_mode_name(m)), m);
    }
    assert_eq!(alpha_mode_name(AlphaMode::Mask), "MASK");
    assert_eq!(alpha_mode_from_name("other"), AlphaMode::Opaque);
    assert_eq!(AlphaMode::default(), AlphaMode::Opaque);
}

#[test]
fn mime_sniffing() {
    assert_eq!(sniff_mime(b"\x89PNG\r\n"), "image/png");
    assert_eq!(sniff_mime(b"\xFF\xD8\xFF"), "image/jpeg");
    assert_eq!(sniff_mime(b"GIF89a"), "application/octet-stream");
    assert_eq!(sniff_mime(b""), "application/octet-stream");
}

#[test]
fn textures_written_read_back() {
    let reader = GltfReader::new();
    let mut b = ResourceBuilder::new();
    let embedded = Texture {
        name: "albedo".to_string(),
        source: ImageSource::Embedded { mime_type: "image/png".to_string(), data: vec![0x89, b'P', b'N', b'G', 1, 2] },
        sampler: Sampler { mag_filter: Filter::Nearest, min_filter: Filter::Nearest, wrap_u: Wrap::ClampToEdge, wrap_v: Wrap::Repeat },
    };
    let external = Texture {
        name: String::new(),
        source: ImageSource::External { uri: "textures/wood.jpg".to_string() },
        sampler: Sampler::default(),
    };
    let scene_textures = vec![embedded.clone(), external.clone()];
    let t0 = b.ensure_texture(&scene_textures, 0);
    let t1 = b.ensure_texture(&scene_textures, 1);
    assert_eq!(b.ensure_texture(&scene_textures, 0), t0);
    assert_eq!(b.textures.len(), 2);
    assert_eq!(b.textures[t1].name, None);
    let buffers = vec![b.buffer_data.clone()];
    let read = reader.convert_textures(&b.textures, &b.images, &b.samplers, &b.buffer_views, &buffers).unwrap();
    assert_eq!(read.len(), 2);
    assert_eq!(read[0].name, "albedo");
    assert_eq!(read[0].sampler, embedded.sampler);
    match &read[0].source {
        ImageSource::Embedded { mime_type, data } => {
            assert_eq!(mime_type, "image/png");
            assert_eq!(data, &vec![0x89, b'P', b'N', b'G', 1, 2]);
        }
        other => panic!("unexpected {:?}", other),
    }
    assert_eq!(read[1].name, "");
    match &read[1].source {
        ImageSource::External { uri } => assert_eq!(uri, "textures/wood.jpg"),
        other => panic!("unexpected {:?}", other),
    }
}

#[test]
fn textures_without_images_are_skipped() {
    let reader = GltfReader::new();
    let textures = vec![
        GltfTexture { sampler: None, source: None, name: None },
        GltfTexture { sampler: None, source: Some(5), name: None },
        GltfTexture { sampler: Some(0), source: Some(0), name: Some("t".to_string()) },
    ];
    let images = vec![Image { uri: Some("data:;base64,/9j/".to_string()), mime_type: None, buffer_view: None, name: None }];
    let samplers = vec![GltfSampler { mag_filter: Some(9728), min_filter: None, wrap_s: 33071, wrap_t: 33071, name: None }];
    let read = reader.convert_textures(&textures, &images, &samplers, &[], &[]).unwrap();
    assert_eq!(read.len(), 1);
    assert_eq!(read[0].name, "t");
    assert_eq!(read[0].sampler.mag_filter, Filter::Nearest);
    match &read[0].source {
        ImageSource::Embedded { mime_type, data } => {
            assert_eq!(mime_type, "image/jpeg");
            assert_eq!(data, &vec![0xFF, 0xD8, 0xFF]);
        }
        other => panic!("unexpected {:?}", other),
    }
    let bad = vec![Image { uri: None, mime_type: None, buffer_view: Some(3), name: None }];
    assert!(reader.convert_textures(&textures[2..], &bad, &samplers, &[], &[]).is_err());
}

#[test]
fn schema_defaults_and_sizes() {
    assert_eq!(default_primitive_mode(), 4);
    assert_eq!(default_wrap_mode(), 10497);
    assert_eq!(default_alpha_mode(), "OPAQUE");
    assert_eq!(default_interpolation(), "LINEAR");
    assert_eq!(Asset::default().version, "2.0");
    let mut a = scalar(None, COMPONENT_FLOAT, 10);
    a.accessor_type = "VEC3".to_string();
    assert_eq!(a.component_size(), 4);
    assert_eq!(a.component_count(), 3);
    assert_eq!(a.byte_size(), 120);
    a.accessor_type = "MAT4".to_string();
    a.component_type = COMPONENT_UNSIGNED_SHORT;
    assert_eq!(a.byte_size(), 10 * 16 * 2);
    let p = Primitive {
        attributes: vec![("POSITION".to_string(), 0), ("NORMAL".to_string(), 1), ("POSITION".to_string(), 7)],
        indices: None,
        material: None,
        mode: 4,
        targets: None,
    };
    assert_eq!(p.attribute("POSITION"), Some(0));
    assert_eq!(p.attribute("NORMAL"), Some(1));
    assert_eq!(p.attribute("COLOR_0"), None);
}

#[test]
fn framed_glb_is_detected() {
    let reader = seed_io::formats::gltf::reader::GltfReader::new();
    let framed = seed_io::formats::gltf::glb::frame_glb(b"{}", &[1, 2, 3]);
    assert!(reader.can_read(&framed));
    let no_bin = seed_io::formats::gltf::glb::frame_glb(b"not json", &[]);
    assert!(reader.can_read(&no_bin));
}

fn links(name: Option<&str>, mesh: Option<usize>, children: Vec<usize>) -> NodeLinks {
    NodeLinks { name: name.map(|s| s.to_string()), mesh, children }
}

fn summary(v: &[PlacedNode]) -> Vec<(Option<usize>, String, Option<usize>, Option<usize>, Option<usize>)> {
    v.iter()
        .map(|p| (p.source, p.name.clone(), p.geometry, p.material, p.parent))
        .collect()
}

#[test]
fn node_tree_layouts() {
    let nodes = vec![
        links(Some("root"), None, vec![1, 2, 3]),
        links(None, Some(0), vec![]),
        links(Some("multi"), Some(1), vec![4]),
        links(Some("lost"), Some(9), vec![]),
        links(Some("leaf"), None, vec![]),
    ];
    let prims = vec![vec![(5, Some(2))], vec![(6, None), (7, Some(1))]];
    let placed = node_tree(&nodes, &prims, 0).ok().unwrap();
    assert_eq!(
        summary(&placed),
        vec![
            (Some(0), "root".to_string(), None, None, None),
            (Some(1), "node_1".to_string(), Some(5), Some(2), Some(0)),
            (Some(2), "multi".to_string(), None, None, Some(0)),
            (None, "multi_primitive_0".to_string(), Some(6), None, Some(2)),
            (None, "multi_primitive_1".to_string(), Some(7), Some(1), Some(2)),
            (Some(4), "leaf".to_string(), None, None, Some(2)),
            (Some(3), "lost".to_string(), None, None, Some(0)),
        ]
    );
}

#[test]
fn node_tree_errors() {
    let nodes = vec![links(None, None, vec![1, 7]), links(None, None, vec![])];
    match node_tree(&nodes, &[], 0) {
        Err(IoError::InvalidData(m)) => assert_eq!(m, "invalid node 7"),
        _ => panic!("expected an invalid node"),
    }
    match node_tree(&nodes, &[], 3) {
        Err(IoError::InvalidData(m)) => assert_eq!(m, "invalid node 3"),
        _ => panic!("expected an invalid node"),
    }
    let cyclic = vec![links(None, None, vec![1]), links(None, None, vec![0])];
    match node_tree(&cyclic, &[], 0) {
        Err(IoError::InvalidData(m)) => assert_eq!(m, "cyclic node 0"),
        _ => panic!("expected a cycle"),
    }
}

#[test]
fn hierarchy_roots_choice() {
    let nodes = vec![
        links(None, None, vec![2]),
        links(None, None, vec![9]),
        links(None, None, vec![]),
        links(None, None, vec![1]),
    ];
    assert_eq!(hierarchy_roots(&nodes, None), vec![0, 3]);
    let chosen = vec![2, 1];
    assert_eq!(hierarchy_roots(&nodes, Some(&chosen)), vec![2, 1]);
    assert!(hierarchy_roots(&[], None).is_empty());
}

#[test]
fn decode_data_uri_any_text() {
    let reader = GltfReader::new();
    assert_eq!(reader.decode_data_uri("x;base64,QUJD").ok(), Some(b"ABC".to_vec()));
    match reader.decode_data_uri("no comma") {
        Err(IoError::InvalidData(m)) => assert_eq!(m, "invalid data URI"),
        _ => panic!("expected invalid data"),
    }
    match reader.decode_data_uri("text/plain,hello") {
        Err(IoError::Unsupported(m)) => assert_eq!(m, "URL-encoded data URIs not supported"),
        _ => panic!("expected unsupported"),
    }
    match reader.decode_data_uri("data:;base64,@@") {
        Err(IoError::InvalidData(m)) => assert!(m.starts_with("base64 decode error: ")),
        _ => panic!("expected a decode error"),
    }
}
