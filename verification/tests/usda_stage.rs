use seed_io::formats::usd::stage::{
    array_to_int_array, attribute_def, metadata_block, number, parse_prim, parse_stage,
    relationship_def, skip_braces, usd_value, value_exec, UsdValue,
};
use seed_io::formats::usd::usda::{PrimSpecifier, Variability};

fn chars(s: &str) -> Vec<char> {
    s.chars().collect()
}

#[test]
fn test_number() {
    let s = chars("42");
    assert!(matches!(number(&s, 0), Some((UsdValue::Int(42), 2))));
    let s = chars("3.14");
    match number(&s, 0) {
        Some((UsdValue::Real(t), 4)) => assert_eq!(t, "3.14"),
        other => panic!("unexpected {:?}", other),
    }
    let s = chars("-5");
    assert!(matches!(number(&s, 0), Some((UsdValue::Int(-5), 2))));
}

#[test]
fn number_forms() {
    let s = chars("1e5 -inf nan 1.5E-3 7e");
    assert!(matches!(number(&s, 0), Some((UsdValue::Real(_), 3))));
    match number(&s, 4) {
        Some((UsdValue::Real(t), 8)) => assert_eq!(t, "-inf"),
        other => panic!("unexpected {:?}", other),
    }
    assert!(matches!(number(&s, 9), Some((UsdValue::Real(_), 12))));
    match number(&s, 13) {
        Some((UsdValue::Real(t), 19)) => assert_eq!(t, "1.5E-3"),
        other => panic!("unexpected {:?}", other),
    }
    // an exponent marker without digits is not part of the number
    assert!(matches!(number(&s, 20), Some((UsdValue::Int(7), 21))));
    // too large for 64 bits
    let big = chars("99999999999999999999");
    assert!(matches!(number(&big, 0), Some((UsdValue::Int(0), 20))));
    assert!(number(&chars("x"), 0).is_none());
}

#[test]
fn test_boolean() {
    let s = chars("true");
    assert!(matches!(value_exec(&s, 0), Some((UsdValue::Bool(true), 4))));
    let s = chars("false");
    assert!(matches!(value_exec(&s, 0), Some((UsdValue::Bool(false), 5))));
    let s = chars("True False None");
    assert!(matches!(value_exec(&s, 0), Some((UsdValue::Bool(true), 4))));
    assert!(matches!(value_exec(&s, 4), Some((UsdValue::Bool(false), 10))));
    assert!(matches!(value_exec(&s, 10), Some((UsdValue::NoneValue, 15))));
}

#[test]
fn test_array_value() {
    let s = chars("[1, 2, 3]");
    let (val, end) = value_exec(&s, 0).unwrap();
    assert_eq!(end, 9);
    if let UsdValue::Array(arr) = &val {
        assert_eq!(arr.len(), 3);
    } else {
        panic!("Expected array");
    }
    assert_eq!(array_to_int_array(&val), vec![1, 2, 3]);
}

#[test]
fn nested_values() {
    let s = chars("[(0, 0, 1), (1.5, 2, 3),] { int a = 1, string b = \"x\" } @a.png@ 'tok'");
    let (v, e) = value_exec(&s, 0).unwrap();
    match v {
        UsdValue::Array(items) => {
            assert_eq!(items.len(), 2);
            match &items[1] {
                UsdValue::Array(inner) => {
                    assert_eq!(inner.len(), 3);
                    assert!(matches!(&inner[0], UsdValue::Real(t) if t == "1.5"));
                }
                other => panic!("unexpected {:?}", other),
            }
        }
        other => panic!("unexpected {:?}", other),
    }
    let (d, e2) = value_exec(&s, e).unwrap();
    match d {
        UsdValue::Dictionary(entries) => {
            assert_eq!(entries.len(), 2);
            assert_eq!(entries[0].0, "a");
            assert!(matches!(entries[0].1, UsdValue::Int(1)));
            assert_eq!(entries[1].0, "b");
            assert!(matches!(&entries[1].1, UsdValue::String(t) if t == "x"));
        }
        other => panic!("unexpected {:?}", other),
    }
    let (a, e3) = value_exec(&s, e2).unwrap();
    assert!(matches!(&a, UsdValue::Asset(t) if t == "a.png"));
    let (t, e4) = value_exec(&s, e3).unwrap();
    assert!(matches!(&t, UsdValue::Token(x) if x == "tok"));
    assert_eq!(e4, s.len());
    assert_eq!(array_to_int_array(&t), Vec::<i64>::new());
}

#[test]
fn metadata_and_attributes() {
    let s = chars("( kind = \"component\" doc = 'x' ) rest");
    let (md, e) = metadata_block(&s, 0).unwrap();
    assert_eq!(md.len(), 2);
    assert_eq!(md[0].0, "kind");
    assert_eq!(md[1].0, "doc");
    assert_eq!(e, 32);
    assert!(metadata_block(&chars("( a b )"), 0).is_none());

    let s = chars("  uniform token[] primvars:st:indices = ['a']");
    let (attr, e) = attribute_def(&s, 0).unwrap();
    assert_eq!(attr.name, "primvars:st:indices");
    assert_eq!(attr.type_label, "token[]");
    assert_eq!(attr.variability, Variability::Uniform);
    assert!(!attr.custom);
    assert!(matches!(attr.default, Some(UsdValue::Array(_))));
    assert_eq!(e, s.len());

    let s = chars("custom double speed.timeSamples = { 0: 1.5, 10: 2 }");
    let (attr, e) = attribute_def(&s, 0).unwrap();
    assert!(attr.custom);
    assert_eq!(attr.name, "speed");
    assert!(attr.default.is_none());
    assert_eq!(attr.time_samples.len(), 2);
    assert!(matches!(attr.time_samples[1].0, UsdValue::Int(10)));
    assert_eq!(e, s.len());

    let s = chars("float size");
    let (attr, e) = attribute_def(&s, 0).unwrap();
    assert_eq!(attr.name, "size");
    assert!(attr.default.is_none());
    assert_eq!(e, s.len());
    assert!(attribute_def(&chars("= 3"), 0).is_none());
}

#[test]
fn relationships_and_braces() {
    let s = chars("rel material:binding = </Materials/Mat>");
    let (name, targets, e) = relationship_def(&s, 0).unwrap();
    assert_eq!(name, "material:binding");
    assert_eq!(targets, vec!["/Materials/Mat".to_string()]);
    assert_eq!(e, s.len());
    let s = chars("rel proxy = [</A>, </B> ]");
    let (_, targets, e) = relationship_def(&s, 0).unwrap();
    assert_eq!(targets, vec!["/A".to_string(), "/B".to_string()]);
    assert_eq!(e, s.len());
    let s = chars("rel empty");
    let (name, targets, _) = relationship_def(&s, 0).unwrap();
    assert_eq!(name, "empty");
    assert!(targets.is_empty());

    let s = chars("{ a { \"}\" } } tail");
    assert_eq!(skip_braces(&s, 0), Some(13));
    assert_eq!(skip_braces(&chars("{ \"open"), 0), None);
    assert_eq!(skip_braces(&chars("{ {"), 0), Some(3));
    assert_eq!(skip_braces(&chars("x"), 0), None);
}

#[test]
fn test_parse_single_prim() {
    let input = chars("def Xform \"World\"\n{\n}\n");
    let result = parse_prim(&input, 0, "");
    assert!(result.is_some(), "Parse single prim failed");
    let (prim, _) = result.unwrap();
    assert_eq!(prim.type_label, "Xform");
    assert_eq!(prim.path, "/World");
    assert_eq!(prim.specifier, PrimSpecifier::Def);
}

#[test]
fn test_header_parsing() {
    let input = "#usda 1.0\n\ndef Xform \"World\"\n{\n}\n";
    let stage = parse_stage(input).unwrap();
    assert!(stage.metadata.is_empty());
    assert_eq!(stage.root_prims.len(), 1);
    assert_eq!(stage.root_prims[0].type_label, "Xform");
}

#[test]
fn test_parse_simple_stage() {
    // Test without metadata block first
    let input = "#usda 1.0

def Xform \"World\"
{
}
";

    let result = parse_stage(input);
    assert!(result.is_some(), "Parse without metadata failed");
    let stage = result.unwrap();
    assert_eq!(stage.root_prims.len(), 1);
    assert_eq!(stage.root_prims[0].type_label, "Xform");

    // Test with metadata block
    let input2 = "#usda 1.0
(
    defaultPrim = \"World\"
    upAxis = \"Y\"
)

def Xform \"World\"
{
    def Mesh \"Cube\"
    {
        float3[] points = [(0, 0, 0), (1, 0, 0), (1, 1, 0)]
        int[] faceVertexCounts = [3]
        int[] faceVertexIndices = [0, 1, 2]
    }
}
";

    let result = parse_stage(input2);
    assert!(result.is_some(), "Parse with metadata failed");
    let stage = result.unwrap();
    assert_eq!(stage.default_prim, Some("World".to_string()));
    assert_eq!(stage.up_axis, Some("Y".to_string()));
    assert_eq!(stage.root_prims.len(), 1);
    assert_eq!(stage.root_prims[0].type_label, "Xform");
    assert_eq!(stage.root_prims[0].children.len(), 1);
    assert_eq!(stage.root_prims[0].children[0].type_label, "Mesh");
    assert_eq!(stage.root_prims[0].children[0].path, "/World/Cube");
}

#[test]
fn test_parse_mesh_attributes() {
    let input = "#usda 1.0

def Mesh \"Triangle\"
{
    float3[] points = [(0, 0, 0), (1, 0, 0), (0.5, 1, 0)]
    float3[] normals = [(0, 0, 1), (0, 0, 1), (0, 0, 1)]
    int[] faceVertexCounts = [3]
    int[] faceVertexIndices = [0, 1, 2]
}
";

    let result = parse_stage(input);
    assert!(result.is_some());
    let stage = result.unwrap();

    let mesh = &stage.root_prims[0];
    assert_eq!(mesh.type_label, "Mesh");

    let points_attr = mesh.attributes.iter().find(|a| a.name == "points");
    assert!(points_attr.is_some());
}

#[test]
fn stage_settings_and_references() {
    let input = "  #usda 1.0 extra
( metersPerUnit = 0.01 upAxis = 'Z' defaultPrim = 3 )
# a comment
junk line
over \"Ref\" ( references = [@a.usda@, @b.usda@] kind = \"x\" )
{
    rel material:binding = </M>
    variantSet \"shape\" = { \"cube\" { } }
    ???
    class \"Inner\" { }
}
";
    let stage = parse_stage(input).unwrap();
    assert!(stage.default_prim.is_none());
    assert_eq!(stage.up_axis, Some("Z".to_string()));
    assert!(matches!(&stage.meters_per_unit, Some(UsdValue::Real(t)) if t == "0.01"));
    assert_eq!(stage.root_prims.len(), 1);
    let p = &stage.root_prims[0];
    assert_eq!(p.specifier, PrimSpecifier::Over);
    assert_eq!(p.type_label, "");
    assert_eq!(p.path, "/Ref");
    assert_eq!(p.references, vec!["a.usda".to_string(), "b.usda".to_string()]);
    assert!(p.inherits.is_empty());
    assert_eq!(p.metadata.len(), 2);
    assert!(p.attributes.is_empty());
    assert_eq!(p.children.len(), 1);
    assert_eq!(p.children[0].path, "/Ref/Inner");
    assert_eq!(p.children[0].specifier, PrimSpecifier::Class);

    assert!(parse_stage("no header").is_none());
    assert!(parse_stage("#usda 1.0\ndef Xform \"A\" {").is_none());
    assert_eq!(parse_stage("#usda").unwrap().root_prims.len(), 0);
}

#[test]
fn value_accessors() {
    let (v, e) = usd_value("  # note\n  'tok' rest").unwrap();
    assert_eq!(e, 16);
    assert_eq!(v.as_string(), Some("tok"));
    assert_eq!(v.as_int(), None);
    let (n, _) = usd_value("-12").unwrap();
    assert_eq!(n.as_int(), Some(-12));
    assert_eq!(n.as_string(), None);
    let (b, _) = usd_value("false").unwrap();
    assert_eq!(b.as_bool(), Some(false));
    let (a, _) = usd_value("[@x@, 2]").unwrap();
    let items = a.as_array().unwrap();
    assert_eq!(items.len(), 2);
    assert_eq!(items[0].as_string(), Some("x"));
    assert!(b.as_array().is_none());
    assert!(usd_value("   ").is_none());
}
