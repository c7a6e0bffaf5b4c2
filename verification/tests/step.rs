use seed_io::formats::step::entities::{convert_entity, extract_enum, RealValue, StepEntity};
use seed_io::formats::step::graph::{build_entity_map, EntityGraph};
use seed_io::formats::step::p21::{
    entity_id, entity_instance, enumeration, parse_data_section, real_literal, step_value,
    string_literal, EntityInstance, StepValue,
};
use seed_io::formats::step::reader::StepReader;
use seed_io::formats::step::mesh::{kept_triangles, mesh_entities};
use seed_io::formats::step::writer::{context_entities, escape_step_string, step_header, StepWriter};

#[test]
fn test_can_read() {
    let reader = StepReader::new();

    let step_header = "ISO-10303-21;\nHEADER;\nFILE_DESCRIPTION";
    assert!(reader.can_read(step_header.as_bytes()));

    assert!(!reader.can_read(b"random data"));
}

#[test]
fn can_read_ignores_case_of_marker_and_bom() {
    let reader = StepReader::new();
    assert!(reader.can_read(b"\xEF\xBB\xBFiso-10303-21;"));
    assert!(reader.can_read(b"HEADER; FILE_DESCRIPTION(());"));
    assert!(!reader.can_read(b"file_description"));
    assert!(!reader.can_read(&[0xFF, 0xFE]));
    let mut late = vec![b' '; 9000];
    late.extend_from_slice(b"ISO-10303-21;");
    assert!(!reader.can_read(&late));
    assert_eq!(reader.name(), "step");
    assert_eq!(reader.extensions(), vec!["step", "stp", "p21"]);
}

#[test]
fn test_escape_step_string() {
    assert_eq!(escape_step_string("hello"), "hello");
    assert_eq!(escape_step_string("it's"), "it''s");
    assert_eq!(escape_step_string("a'b'c"), "a''b''c");
}

#[test]
fn escaped_string_with_backslash_reads_back() {
    let text = "C:\\dir\\it's";
    let quoted = format!("'{}'", escape_step_string(text));
    assert_eq!(string_literal(&quoted), Some((text.to_string(), quoted.chars().count())));
}

#[test]
fn writer_names() {
    let w = StepWriter::new();
    assert_eq!(w.name(), "step");
    assert_eq!(w.extension(), "step");
}

#[test]
fn test_entity_id() {
    assert_eq!(entity_id("#123"), Some((123, 4)));
    assert_eq!(entity_id("#1"), Some((1, 2)));
}

#[test]
fn test_real() {
    let (t, _) = real_literal("3.14").unwrap();
    assert!((t.parse::<f64>().unwrap() - 3.14).abs() < 0.001);
    let (t, _) = real_literal("1.0E-5").unwrap();
    assert!((t.parse::<f64>().unwrap() - 1.0e-5).abs() < 1e-10);
}

#[test]
fn p21_test_string_literal() {
    assert_eq!(string_literal("'hello'"), Some(("hello".to_string(), 7)));
    assert_eq!(string_literal("'it''s'"), Some(("it's".to_string(), 7)));
}

#[test]
fn test_enumeration() {
    assert_eq!(enumeration(".T."), Some(("T".to_string(), 3)));
    assert_eq!(enumeration(".PLANE."), Some(("PLANE".to_string(), 7)));
}

#[test]
fn test_entity_instance() {
    let input = "#10 = CARTESIAN_POINT('origin', (0., 0., 0.));";
    let result = entity_instance(input);
    assert!(result.is_some(), "Parse failed: {:?}", result);
    let (entity, _) = result.unwrap();
    assert_eq!(entity.id, 10);
    assert_eq!(entity.type_label, "CARTESIAN_POINT");
    assert_eq!(entity.params.len(), 2);
}

#[test]
fn test_crlf_line_endings() {
    let input = "DATA;\r\n#1 = CARTESIAN_POINT ( 'NONE',  ( 31.0, -64.2, -55.0 ) ) ;\r\n#2 = FACE_OUTER_BOUND ( 'NONE', #8586, .T. ) ;\r\nENDSEC;";
    let result = parse_data_section(input);
    assert!(result.is_some(), "Failed to parse CRLF: {:?}", result);
    let (entities, _) = result.unwrap();
    assert_eq!(entities.len(), 2);
}

#[test]
fn test_complex_entity() {
    let input = "DATA;\r\n#914 =( GEOMETRIC_REPRESENTATION_CONTEXT ( 3 ) GLOBAL_UNIT_ASSIGNED_CONTEXT ( ( #6059, #3996 ) ) );\r\nENDSEC;";
    let result = parse_data_section(input);
    assert!(result.is_some(), "Failed to parse complex entity: {:?}", result);
    let (entities, _) = result.unwrap();
    assert_eq!(entities.len(), 1);
    assert_eq!(entities[0].id, 914);
    assert_eq!(entities[0].type_label, "GEOMETRIC_REPRESENTATION_CONTEXT");
}

#[test]
fn test_typed_parameter() {
    let input = "DATA;\r\n#12267 = UNCERTAINTY_MEASURE_WITH_UNIT (LENGTH_MEASURE( 1.0E-05 ), #6059, 'distance_accuracy_value', 'NONE');\r\nENDSEC;";
    let result = parse_data_section(input);
    assert!(result.is_some(), "Failed to parse typed parameter: {:?}", result);
    let (entities, _) = result.unwrap();
    assert_eq!(entities.len(), 1);
    assert_eq!(entities[0].id, 12267);
}

fn instances(text: &str) -> Vec<EntityInstance> {
    parse_data_section(text).unwrap().0
}

#[test]
fn converted_entities() {
    let insts = instances(
        "DATA;\n#1=CARTESIAN_POINT('p',(1.5,2,-3.));\n#2=VERTEX_POINT('',#1);\n#3=MANIFOLD_SOLID_BREP('solid',#4);\n#4=CLOSED_SHELL('',(#5,#6));\n#7=SOMETHING_ELSE(1);\nENDSEC;",
    );
    match convert_entity(&insts[0]) {
        StepEntity::CartesianPoint(p) => {
            assert_eq!(p.id, 1);
            assert_eq!(p.name, "p");
            assert!(matches!(&p.coords.x, RealValue::Literal(t) if t == "1.5"));
            assert!(matches!(&p.coords.y, RealValue::Literal(t) if t == "2"));
        }
        other => panic!("unexpected {:?}", other),
    }
    match convert_entity(&insts[3]) {
        StepEntity::ClosedShell(s) => assert_eq!(s.faces, vec![5, 6]),
        other => panic!("unexpected {:?}", other),
    }
    match convert_entity(&insts[4]) {
        StepEntity::Unknown { type_label, id } => {
            assert_eq!(type_label, "SOMETHING_ELSE");
            assert_eq!(id, 7);
        }
        other => panic!("unexpected {:?}", other),
    }
}

#[test]
fn entity_graph_lookups() {
    let insts = instances(
        "DATA;\n#1=CARTESIAN_POINT('p',(1.,2.,3.));\n#2=VERTEX_POINT('',#1);\n#3=MANIFOLD_SOLID_BREP('solid',#4);\n#4=CLOSED_SHELL('',(#5));\n#8=OPEN_SHELL('',());\n#9=FACETED_BREP('f',#8);\n#10=SHAPE_REPRESENTATION('r',(#3),#11);\n#1=CARTESIAN_POINT('q',(4.,5.,6.));\nENDSEC;",
    );
    let map = build_entity_map(&insts);
    assert_eq!(map.len(), 7);
    let graph = EntityGraph::new(insts);
    assert_eq!(graph.raw.len(), 7);
    assert_eq!(graph.raw[&1].params.len(), 2);
    let point = graph.get_point(1).unwrap();
    assert!(matches!(&point.x, RealValue::Literal(t) if t == "4."));
    let vertex = graph.get_vertex_coords(2).unwrap();
    assert!(matches!(&vertex.z, RealValue::Literal(t) if t == "6."));
    assert!(graph.get_point(2).is_none());
    assert!(graph.get(99).is_none());
    let mut solids = graph.find_solids();
    solids.sort();
    assert_eq!(solids, vec![3, 9]);
    let mut shells = graph.find_shells();
    shells.sort();
    assert_eq!(shells, vec![4, 8]);
    assert_eq!(graph.find_shape_representations(), vec![10]);
    assert!(graph.get_item_defined_transformation(10).is_none());
}

#[test]
fn entity_graph_assembly_queries() {
    let insts = instances(
        "DATA;\n#1=DIRECTION('d',(0.,0.,2.));\n#2=NEXT_ASSEMBLY_USAGE_OCCURRENCE('n1','wheel','',#5,#6,$);\n#3=NEXT_ASSEMBLY_USAGE_OCCURRENCE('n2','axle','',#5,#7,$);\n#4=CONTEXT_DEPENDENT_SHAPE_REPRESENTATION(#8,#9);\n#8=REPRESENTATION_RELATIONSHIP('r','',#10,#11,#12);\n#13=REPRESENTATION_RELATIONSHIP('plain','',#10,#11);\nENDSEC;",
    );
    let graph = EntityGraph::new(insts);
    let d = graph.get_direction(1).unwrap();
    assert!(matches!(&d.z, RealValue::Literal(t) if t == "2."));
    assert!(graph.get_direction(2).is_none());
    let mut names: Vec<&str> = graph
        .find_assembly_occurrences()
        .iter()
        .map(|n| n.name.as_str())
        .collect();
    names.sort();
    assert_eq!(names, vec!["axle", "wheel"]);
    let cdsrs = graph.find_context_dependent_shape_representations();
    assert_eq!(cdsrs.len(), 1);
    assert_eq!(cdsrs[0].representation_relation, 8);
    let rels = graph.find_representation_relationships_with_transform();
    assert_eq!(rels.len(), 1);
    assert_eq!(rels[0].transformation_operator, 12);
    let mut nauos = graph.find_by_type("NEXT_ASSEMBLY_USAGE_OCCURRENCE");
    nauos.sort();
    assert_eq!(nauos, vec![2, 3]);
    assert!(graph.find_by_type("CIRCLE").is_empty());
}

#[test]
fn values_and_enums() {
    let (v, e) = step_value(".T.,").unwrap();
    assert_eq!(e, 3);
    assert_eq!(extract_enum(&v), "T");
    let (l, e) = step_value("(#1, 2, 'a', $, *)").unwrap();
    assert_eq!(e, 18);
    match l {
        StepValue::List(items) => {
            assert_eq!(items.len(), 5);
            assert!(matches!(items[0], StepValue::Reference(1)));
            assert!(matches!(&items[1], StepValue::Real(t) if t == "2"));
            assert!(matches!(items[3], StepValue::Omitted));
            assert!(matches!(items[4], StepValue::Derived));
            assert_eq!(extract_enum(&items[2]), "");
        }
        other => panic!("unexpected {:?}", other),
    }
    assert!(step_value(")").is_none());
}

#[test]
fn mesh_entities_single_triangle() {
    let points = vec!["0.,0.,0.".to_string(), "1.,0.,0.".to_string(), "0.,1.,0.".to_string()];
    let indices = vec![0u32, 1, 2];
    assert_eq!(kept_triangles(points.len(), &indices), vec![(0, 1, 2)]);
    let frames = vec![("0.,0.,1.".to_string(), "0.,1.,0.".to_string())];
    let (lines, next, solid) = mesh_entities(20, &points, &frames, &indices, "", 3, 1);
    assert_eq!(lines.len(), 3 + 10 + 13);
    assert_eq!(next, 20 + 26);
    assert_eq!(solid, Some(34));
    assert_eq!(lines[0], "#20=CARTESIAN_POINT('',(0.,0.,0.));");
    assert_eq!(lines[3], "#23=VERTEX_POINT('',#20);");
    assert_eq!(lines[6], "#26=DIRECTION('',(0.,0.,1.));");
    assert_eq!(lines[8], "#28=AXIS2_PLACEMENT_3D('',#20,#26,#27);");
    assert_eq!(lines[10], "#30=POLY_LOOP('',(#20,#21,#22));");
    assert_eq!(lines[12], "#32=FACE_SURFACE('',(#31),'',#29,.T.);");
    assert_eq!(lines[13], "#33=CLOSED_SHELL('',(#32));");
    assert_eq!(lines[14], "#34=MANIFOLD_SOLID_BREP('Part',#33);");
    assert_eq!(lines[15], "#35=ADVANCED_BREP_SHAPE_REPRESENTATION('',(#34,#39),#3);");
    assert_eq!(lines[20], "#40=PRODUCT('Part','Part','',(#1));");
    assert_eq!(lines[25], "#45=SHAPE_DEFINITION_REPRESENTATION(#44,#35);");
    for (k, line) in lines.iter().enumerate() {
        let parsed = entity_instance(line);
        assert!(parsed.is_some(), "line {} does not parse: {}", k, line);
        let (entity, end) = parsed.unwrap();
        assert_eq!(entity.id, 20 + k as u64);
        assert_eq!(end, line.chars().count());
    }
}

#[test]
fn mesh_entities_skips_bad_triangles() {
    let points = vec!["0.,0.,0.".to_string(), "1.,0.,0.".to_string()];
    // One triangle refers to a missing point; the trailing pair is not a triangle.
    let indices = vec![0u32, 1, 5, 0, 1];
    assert!(kept_triangles(points.len(), &indices).is_empty());
    let (lines, next, solid) = mesh_entities(7, &points, &[], &indices, "it's", 3, 1);
    assert_eq!(lines, vec![
        "#7=CARTESIAN_POINT('',(0.,0.,0.));".to_string(),
        "#8=CARTESIAN_POINT('',(1.,0.,0.));".to_string(),
    ]);
    assert_eq!(next, 9);
    assert_eq!(solid, None);
    let (lines, next, solid) = mesh_entities(7, &points, &[], &[], "x", 3, 1);
    assert!(lines.is_empty());
    assert_eq!(next, 7);
    assert_eq!(solid, None);
}

#[test]
fn mesh_entities_escape_product_name() {
    let points = vec!["0.,0.,0.".to_string(); 3];
    let indices = vec![0u32, 1, 2, 2, 1, 0];
    let frames = vec![("0.,0.,1.".to_string(), "1.,0.,0.".to_string()); 2];
    let (lines, next, solid) = mesh_entities(1, &points, &frames, &indices, "it's", 9, 8);
    assert_eq!(lines.len(), 3 + 20 + 13);
    assert_eq!(next, 37);
    assert_eq!(solid, Some(25));
    assert_eq!(lines[23], "#24=CLOSED_SHELL('',(#13,#23));");
    assert_eq!(lines[24], "#25=MANIFOLD_SOLID_BREP('it''s',#24);");
    assert_eq!(lines[34], "#35=PRODUCT_DEFINITION_SHAPE('','Shape of it''s',#34);");
}

#[test]
fn header_defaults_and_escapes() {
    let h = step_header(None, None, None, None, None);
    assert_eq!(
        h,
        "ISO-10303-21;\nHEADER;\nFILE_DESCRIPTION(('Exported from seed-io'),'2;1');\n\
         FILE_NAME('model.step','2024-01-01T00:00:00',(''),(''),'seed-io','seed-io','');\n\
         FILE_SCHEMA(('AUTOMOTIVE_DESIGN { 1 0 10303 214 1 1 1 1 }'));\nENDSEC;\n"
    );
    let h = step_header(Some("it's"), Some("a.step"), Some("Ann"), None, Some("2020"));
    assert!(h.contains("FILE_DESCRIPTION(('it''s'),'2;1');\n"));
    assert!(h.contains("FILE_NAME('a.step','2020',('Ann'),"));
    let h = step_header(None, None, None, Some("2021"), Some("2020"));
    assert!(h.contains("FILE_NAME('model.step','2021',"));
}

#[test]
fn context_entities_numbering() {
    let lines = context_entities(1);
    assert_eq!(lines.len(), 7);
    assert_eq!(lines[0], "#1=APPLICATION_CONTEXT('automotive design');");
    assert_eq!(
        lines[1],
        "#2=APPLICATION_PROTOCOL_DEFINITION('international standard','automotive_design',2010,#1);"
    );
    assert!(lines[2].starts_with("#3=( GEOMETRIC_REPRESENTATION_CONTEXT(3) GLOBAL_UNCERTAINTY_ASSIGNED_CONTEXT((#4)) GLOBAL_UNIT_ASSIGNED_CONTEXT((#5,#6,#7))"));
    assert_eq!(
        lines[3],
        "#4=UNCERTAINTY_MEASURE_WITH_UNIT(LENGTH_MEASURE(1.E-07),#5,'distance_accuracy_value','confusion accuracy');"
    );
    assert_eq!(lines[6], "#7=( NAMED_UNIT(*) SI_UNIT($,.STERADIAN.) SOLID_ANGLE_UNIT() );");
}
