use amrust::dom::{DomAttribute, DomNode, NodeKind};
use amrust::threemf_reader::load_threemf_get_root_model_file_as_string;
use amrust::tree::{Tree, XmlError, MAX_DEPTH};
use std::io::{Cursor, Write};
use xml_dom::level2::{CharacterData, Node, NodeType, RefNode};
use xml_dom::parser::read_xml;
use zip::write::SimpleFileOptions;
use zip::ZipWriter;

fn plain(node: &RefNode) -> DomNode {
    let kind = match node.node_type() {
        NodeType::Element => NodeKind::Element,
        NodeType::Attribute => NodeKind::Attribute,
        NodeType::Text => NodeKind::Text,
        _ => NodeKind::Other,
    };
    let mut attributes = Vec::new();
    if kind == NodeKind::Element {
        for (name, attribute) in node.attributes() {
            attributes.push(DomAttribute {
                name: name.local_name().to_string(),
                node: plain(&attribute),
            });
        }
    }
    DomNode {
        kind,
        local_name: node.local_name(),
        data: node.data(),
        attributes,
        children: node.child_nodes().iter().map(plain).collect(),
    }
}

fn parse(xml: &str) -> Result<DomNode, Option<String>> {
    match read_xml(xml) {
        Ok(document) => Ok(plain(&document)),
        Err(error) => Err(Some(error.to_string())),
    }
}

fn trees_of(xml: &str) -> Result<Vec<Tree>, XmlError> {
    Tree::new_trees_from_parse_result(parse(xml))
}

fn leaf(name: &str, content: Option<&str>) -> Tree {
    Tree {
        name: name.to_string(),
        content: content.map(|c| c.to_string()),
        attributes: None,
        childs: None,
    }
}

fn count_trees(trees: &[Tree]) -> usize {
    trees
        .iter()
        .map(|t| 1 + t.childs.as_ref().map_or(0, |c| count_trees(c)))
        .sum()
}

fn has_empty_part(tree: &Tree) -> bool {
    tree.content.as_ref().map_or(false, |c| c.is_empty())
        || tree.attributes.as_ref().map_or(false, |a| a.is_empty())
        || tree
            .childs
            .as_ref()
            .map_or(false, |c| c.is_empty() || c.iter().any(has_empty_part))
}

const MODEL: &str = r#"<?xml version="1.0" encoding="UTF-8"?>
<model unit="millimeter" xmlns="http://schemas.microsoft.com/3dmanufacturing/core/2015/02">
  <resources>
    <object id="1" type="model">
      <mesh>
        <vertices>
          <vertex x="0" y="0" z="0"/>
          <vertex x="10" y="0" z="30"/>
        </vertices>
        <triangles>
          <triangle v1="0" v2="1" v3="3"/>
        </triangles>
      </mesh>
    </object>
  </resources>
  <build>
    <item objectid="1"/>
  </build>
</model>"#;

#[test]
fn test_a_valid_tree_generated_from_valid_xml() {
    let result = trees_of(MODEL);
    assert!(
        result.is_ok(),
        "A valid tree is not generated from a valid xml"
    );
}

#[test]
fn test_error_returned_when_invalid_xml() {
    let result = trees_of("<model unit=\"millimeter\"");
    assert!(
        result.is_err(),
        "Operation did not return en error when given invalid xml"
    );
}

#[test]
fn test_get_xml_dom_from_3mf_model_file_string() {
    let mut writer = ZipWriter::new(Cursor::new(Vec::new()));
    writer.start_file("3D/3dmodel.model", SimpleFileOptions::default()).unwrap();
    writer.write_all(MODEL.as_bytes()).unwrap();
    let bytes = writer.finish().unwrap().into_inner();
    let string = load_threemf_get_root_model_file_as_string(&bytes).unwrap();

    let dom = parse(&string);
    assert!(dom.is_ok(), "XML Dom generaated");
    let trees = Tree::new_trees_from_document(&dom.unwrap()).unwrap();
    assert!(trees[0].name == "model", "3mf model is not found");
}

#[test]
fn parsed_element_with_attribute_and_two_children() {
    let trees = trees_of(r#"<a x="1"><b>hi</b><b>bye</b></a>"#).unwrap();
    let expected = Tree {
        name: "a".to_string(),
        content: None,
        attributes: Some(vec![("x".to_string(), "1".to_string())]),
        childs: Some(vec![leaf("b", Some("hi")), leaf("b", Some("bye"))]),
    };
    assert_eq!(trees, vec![expected]);
}

#[test]
fn declaration_alone_is_an_empty_result() {
    assert_eq!(trees_of(r#"<?xml version="1.0"?>"#), Err(XmlError::EmptyResult));
    assert_eq!(trees_of(""), Err(XmlError::EmptyResult));
    assert_eq!(trees_of("<!-- nothing to see -->"), Err(XmlError::EmptyResult));
}

#[test]
fn unclosed_tag_is_a_failed_parse() {
    let built = trees_of("<a");
    assert!(matches!(built, Err(XmlError::ParseFailed(Some(_)))));
}

#[test]
fn text_outside_the_root_is_a_failed_parse() {
    let built = trees_of("stray text <a/>");
    assert!(matches!(built, Err(XmlError::ParseFailed(Some(_)))));
}

#[test]
fn namespace_prefix_is_stripped_from_names() {
    let trees = trees_of(r#"<m:model xmlns:m="urn:m"><m:part/></m:model>"#).unwrap();
    assert_eq!(trees[0].name, "model");
    assert_eq!(trees[0].childs, Some(vec![leaf("part", None)]));
}

#[test]
fn parsed_content_joins_fragments_in_document_order() {
    let trees = trees_of("<p>one<br/>two<![CDATA[three]]><i>x</i>four</p>").unwrap();
    assert_eq!(trees[0].content, Some("onetwothreefour".to_string()));
    assert_eq!(trees[0].childs, Some(vec![leaf("br", None), leaf("i", Some("x"))]));
}

#[test]
fn several_attributes_are_all_kept() {
    let trees = trees_of(r#"<vertex x="0" y="10" z="30"/>"#).unwrap();
    let mut attributes = trees[0].attributes.clone().unwrap();
    attributes.sort();
    assert_eq!(
        attributes,
        vec![
            ("x".to_string(), "0".to_string()),
            ("y".to_string(), "10".to_string()),
            ("z".to_string(), "30".to_string()),
        ]
    );
}

#[test]
fn parsed_model_has_one_tree_for_each_element() {
    let trees = trees_of(MODEL).unwrap();
    assert_eq!(MODEL.matches('<').count() - MODEL.matches("</").count() - 1, 11);
    assert_eq!(count_trees(&trees), 11);
    assert!(!trees.iter().any(has_empty_part));
}

#[test]
fn parsed_model_keeps_the_nesting() {
    let trees = trees_of(MODEL).unwrap();
    assert_eq!(trees.len(), 1);
    let model = &trees[0];
    assert_eq!(model.name, "model");
    assert_eq!(model.content, None);
    let parts: Vec<&str> = model.childs.as_ref().unwrap().iter().map(|t| t.name.as_str()).collect();
    assert_eq!(parts, vec!["resources", "build"]);
    let build = &model.childs.as_ref().unwrap()[1];
    let item = &build.childs.as_ref().unwrap()[0];
    assert_eq!(item.name, "item");
    assert_eq!(item.attributes, Some(vec![("objectid".to_string(), "1".to_string())]));
    assert_eq!(item.childs, None);
    assert_eq!(item.label(), "item");
    assert_eq!(item.attribute_labels(), vec!["objectid - 1".to_string()]);
}

#[test]
fn parsed_document_beyond_the_limit_is_too_deep() {
    let deep = "<e>".repeat(MAX_DEPTH + 1) + &"</e>".repeat(MAX_DEPTH + 1);
    assert_eq!(trees_of(&deep), Err(XmlError::TooDeep));

    let allowed = "<e>".repeat(MAX_DEPTH) + &"</e>".repeat(MAX_DEPTH);
    assert_eq!(count_trees(&trees_of(&allowed).unwrap()), MAX_DEPTH);
}
