use seed_io::error::IoError;
use seed_io::formats::usd::reader::{locate_mesh_attributes, triangulate_faces, UsdReader};
use seed_io::formats::usd::usda::{
    asset_path, double_quoted_string, identifier, prim_specifier, single_quoted_string,
    PrimSpecifier, Variability,
};
use seed_io::formats::usd::usdc::{is_usdc, parse_header};
use seed_io::formats::usd::writer::{
    escape_string, face_vertex_counts_line, face_vertex_indices_line, material_prim_name,
    sanitize_name, UsdWriter, UsdaBuilder,
};

fn chars(s: &str) -> Vec<char> {
    s.chars().collect()
}

#[test]
fn reader_test_can_read() {
    let reader = UsdReader::new();

    // USDA
    assert!(reader.can_read(b"#usda 1.0\n(\n)\n"));

    // USDC
    assert!(reader.can_read(b"PXR-USDC\x00\x07\x00\x00"));

    // USDZ (ZIP)
    assert!(reader.can_read(b"PK\x03\x04test"));

    // Random
    assert!(!reader.can_read(b"random data"));
}

#[test]
fn test_is_usdc() {
    assert!(is_usdc(b"PXR-USDC\x00\x00\x00\x00"));
    assert!(!is_usdc(b"not usdc"));
    assert!(!is_usdc(b"PXR")); // too short
}

#[test]
fn usdc_header() {
    let mut data = b"PXR-USDC".to_vec();
    data.extend_from_slice(&[0, 8, 1]);
    data.resize(64, 0);
    let h = parse_header(&data).unwrap();
    assert_eq!((h.version.major, h.version.minor, h.version.patch), (0, 8, 1));
    assert!(parse_header(&data[..63]).is_none());
}

#[test]
fn test_sanitize_name() {
    assert_eq!(sanitize_name("Hello World"), "Hello_World");
    assert_eq!(sanitize_name("mesh-01"), "mesh_01");
    assert_eq!(sanitize_name("123abc"), "_123abc");
    assert_eq!(sanitize_name(""), "unnamed");
}

#[test]
fn sanitize_drops_other_characters() {
    assert_eq!(sanitize_name("a/b"), "ab");
    assert_eq!(sanitize_name("!!"), "unnamed");
    assert_eq!(sanitize_name("x.y 1"), "x_y_1");
}

#[test]
fn sanitize_never_leads_with_digit() {
    assert_eq!(sanitize_name("!1"), "_1");
    assert_eq!(sanitize_name("/7/x"), "_7x");
    assert_eq!(sanitize_name(sanitize_name("!1").as_str()), "_1");
}

#[test]
fn test_escape_string() {
    assert_eq!(escape_string("hello"), "hello");
    assert_eq!(escape_string("say \"hi\""), "say \\\"hi\\\"");
    assert_eq!(escape_string("line1\nline2"), "line1\\nline2");
}

#[test]
fn usda_test_string_literal() {
    let s = chars("\"hello\"");
    assert_eq!(double_quoted_string(&s, 0), Some((s.len(), chars("hello"))));
    let t = chars("'token'");
    assert_eq!(single_quoted_string(&t, 0), Some((t.len(), chars("token"))));
}

#[test]
fn escaped_strings_read_back() {
    for text in ["plain", "say \"hi\"", "tab\there", "back\\slash", "cr\r lf\n", ""] {
        let lit = format!("\"{}\" rest", escape_string(text));
        let s = chars(&lit);
        let (end, content) = double_quoted_string(&s, 0).unwrap();
        assert_eq!(content, chars(text));
        assert_eq!(s[end..].iter().collect::<String>(), " rest");
    }
    let s = chars("\"a\\qb\"");
    assert_eq!(double_quoted_string(&s, 0), Some((6, chars("a\\qb"))));
    assert_eq!(double_quoted_string(&chars("\"open"), 0), None);
    assert_eq!(double_quoted_string(&chars("\"end\\"), 0), None);
}

#[test]
fn test_prim_specifier() {
    assert_eq!(prim_specifier(&chars("def"), 0), Some((3, PrimSpecifier::Def)));
    assert_eq!(prim_specifier(&chars("def "), 0), Some((3, PrimSpecifier::Def)));
    assert_eq!(prim_specifier(&chars("def Xform"), 0), Some((3, PrimSpecifier::Def)));
    assert_eq!(prim_specifier(&chars("over"), 0), Some((4, PrimSpecifier::Over)));
    assert_eq!(prim_specifier(&chars("class"), 0), Some((5, PrimSpecifier::Class)));
}

#[test]
fn test_identifier() {
    assert_eq!(identifier(&chars("MyMesh"), 0), Some(6));
    assert_eq!(identifier(&chars("mesh_01"), 0), Some(7));
    assert_eq!(identifier(&chars(" x"), 0), None);
}

#[test]
fn test_asset_path() {
    let s = chars("@./textures/wood.png@");
    assert_eq!(asset_path(&s, 0), Some((s.len(), chars("./textures/wood.png"))));
}

#[test]
fn defaults() {
    assert_eq!(PrimSpecifier::default(), PrimSpecifier::Def);
    assert_eq!(Variability::default(), Variability::Varying);
}

#[test]
fn writer_names_and_lines() {
    let w = UsdWriter::new();
    assert_eq!(w.name(), "usd");
    assert_eq!(w.extension(), "usda");
    let mut b = UsdaBuilder::new(true);
    b.write_line("def Xform \"World\"");
    b.indent = 2;
    b.write_line("{");
    assert_eq!(b.output, "def Xform \"World\"\n        {\n");
    let mut flat = UsdaBuilder::new(false);
    flat.indent = 3;
    flat.write_line("x");
    assert_eq!(flat.output, "x\n");
}

#[test]
fn fan_triangulation() {
    // a quad and a triangle; a degenerate face and an overflowing one are skipped
    let counts = [4i64, 2, 3, 5];
    let indices = [0i64, 1, 2, 3, 9, 9, 4, 5, 6, 7];
    assert_eq!(triangulate_faces(&counts, &indices), vec![0, 1, 2, 0, 2, 3, 4, 5, 6]);
    assert_eq!(triangulate_faces(&[], &indices), Vec::<u32>::new());
}

#[test]
fn mesh_attribute_slots() {
    let names: Vec<String> = ["points", "primvars:st", "normals", "faceVertexCounts", "faceVertexIndices", "points", "other"]
        .iter()
        .map(|s| s.to_string())
        .collect();
    let slots = locate_mesh_attributes(&names);
    assert_eq!(slots.points, Some(5));
    assert_eq!(slots.texcoords, Some(1));
    assert_eq!(slots.normals, Some(2));
    assert_eq!(slots.face_vertex_counts, Some(3));
    assert_eq!(slots.face_vertex_indices, Some(4));
}

fn zip_entry(name: &str, data: &[u8], compressed: u32) -> Vec<u8> {
    let mut e = b"PK\x03\x04".to_vec();
    e.extend_from_slice(&[0u8; 14]);
    e.extend_from_slice(&compressed.to_le_bytes());
    e.extend_from_slice(&(data.len() as u32).to_le_bytes());
    e.extend_from_slice(&(name.len() as u16).to_le_bytes());
    e.extend_from_slice(&0u16.to_le_bytes());
    e.extend_from_slice(name.as_bytes());
    e.extend_from_slice(data);
    e
}

#[test]
fn usdz_member() {
    let reader = UsdReader::new();
    let mut z = zip_entry("tex.png", b"PNGDATA", 7);
    let start = z.len() + 30 + "scene.usda".len();
    z.extend(zip_entry("scene.usda", b"#usda 1.0\n", 10));
    z.extend_from_slice(b"PK\x01\x02 central directory padding");
    assert_eq!(reader.find_usdz_member(&z).unwrap(), (start, start + 10));
    let compressed = zip_entry("scene.usda", b"xxxxxxxx", 3);
    match reader.find_usdz_member(&compressed) {
        Err(IoError::ParseError { message, .. }) => {
            assert_eq!(message, "No readable USD file found in USDZ archive")
        }
        other => panic!("unexpected {:?}", other),
    }
    assert_eq!(reader.name(), "usd");
    assert_eq!(reader.extensions(), vec!["usd", "usda", "usdc", "usdz"]);
}

#[test]
fn material_names_and_face_lines() {
    assert_eq!(material_prim_name("", 3), "Material_3");
    assert_eq!(material_prim_name("Steel", 0), "Steel");
    assert_eq!(material_prim_name("my-mat", 1), sanitize_name("my-mat"));
    assert_eq!(face_vertex_counts_line(6), "int[] faceVertexCounts = [3, 3]");
    assert_eq!(face_vertex_counts_line(7), "int[] faceVertexCounts = [3, 3]");
    assert_eq!(face_vertex_counts_line(0), "int[] faceVertexCounts = []");
    assert_eq!(
        face_vertex_indices_line(&[0, 1, 2, 10]),
        "int[] faceVertexIndices = [0, 1, 2, 10]"
    );
    assert_eq!(face_vertex_indices_line(&[]), "int[] faceVertexIndices = []");
}
