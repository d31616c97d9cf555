use webdav_fuse::errors::Errors;
use webdav_fuse::xml::{read_document, XmlNode};

const SAMPLES: [&str; 6] = [
    "<e/>",
    "<a><b>text</b><c/><!-- note --><d>one<e/>two</d></a>",
    "<?xml version=\"1.0\"?>\n<d:multistatus xmlns:d=\"DAV:\">\n <d:response>\n  \
     <d:href>/docs/</d:href>\n  <d:propstat>\n   <d:prop>\n    <d:resourcetype><d:collection/>\
     </d:resourcetype>\n    <d:getetag>\"x\"</d:getetag>\n   </d:prop>\n  </d:propstat>\n \
     </d:response>\n <d:response><d:href>/docs/a%20b.txt</d:href></d:response>\n</d:multistatus>",
    "<a>&lt;tag&gt; &amp; <![CDATA[<raw>]]> end</a>",
    "<a xmlns=\"urn:x\" xmlns:y=\"urn:y\"><y:b k=\"v\"/><b/></a>",
    "<deep><deep><deep><deep><leaf>1</leaf></deep><leaf>2</leaf></deep></deep><leaf>3</leaf></deep>",
];

fn children(nodes: &[XmlNode], i: usize) -> Vec<usize> {
    (0..nodes.len()).filter(|&j| nodes[j].parent == Some(i)).collect()
}

#[test]
fn a_document_is_its_nodes_in_document_order() {
    let nodes = read_document("<a><b>text</b><c/></a>").unwrap();
    assert_eq!(nodes.len(), 5);
    // the root of the document
    assert!(!nodes[0].is_element);
    assert_eq!(nodes[0].name, "");
    assert_eq!(nodes[0].text, None);
    assert_eq!(nodes[0].parent, None);
    assert_eq!(nodes[0].span, 5);
    // <a>
    assert!(nodes[1].is_element);
    assert_eq!(nodes[1].name, "a");
    assert_eq!(nodes[1].text, None);
    assert_eq!(nodes[1].parent, Some(0));
    assert_eq!(nodes[1].span, 4);
    // <b>
    assert!(nodes[2].is_element);
    assert_eq!(nodes[2].name, "b");
    assert_eq!(nodes[2].text, Some("text".to_string()));
    assert_eq!(nodes[2].parent, Some(1));
    assert_eq!(nodes[2].span, 2);
    // the text in <b>
    assert!(!nodes[3].is_element);
    assert_eq!(nodes[3].name, "");
    assert_eq!(nodes[3].text, Some("text".to_string()));
    assert_eq!(nodes[3].parent, Some(2));
    assert_eq!(nodes[3].span, 1);
    // <c>
    assert!(nodes[4].is_element);
    assert_eq!(nodes[4].name, "c");
    assert_eq!(nodes[4].text, None);
    assert_eq!(nodes[4].parent, Some(1));
    assert_eq!(nodes[4].span, 1);
}

#[test]
fn the_name_of_an_element_is_its_local_name() {
    let nodes = read_document("<d:a xmlns:d=\"DAV:\"><d:b/><c xmlns=\"urn:c\"/></d:a>").unwrap();
    let names: Vec<&str> = nodes.iter().map(|n| n.name.as_str()).collect();
    assert_eq!(names, vec!["", "a", "b", "c"]);
}

#[test]
fn text_that_is_no_document_is_refused() {
    for bad in ["", "plain", "<a>", "<a></b>", "<a/><b/>", "<a b=\"1\" b=\"2\"/>", "<d:a/>"] {
        assert!(matches!(read_document(bad), Err(Errors::XMLDocumentParseError(_))), "{}", bad);
    }
}

#[test]
fn the_nodes_say_what_the_parsed_tree_says() {
    for sample in SAMPLES {
        let nodes = read_document(sample).unwrap();
        let doc = roxmltree::Document::parse(sample).unwrap();
        let tree: Vec<roxmltree::Node> = doc.descendants().collect();
        assert_eq!(nodes.len(), tree.len(), "{}", sample);
        for (i, n) in tree.iter().enumerate() {
            assert_eq!(n.id().get_usize(), i);
            assert_eq!(nodes[i].is_element, n.is_element());
            assert_eq!(nodes[i].name, n.tag_name().name());
            assert_eq!(nodes[i].text.as_deref(), n.text());
            assert_eq!(nodes[i].parent, n.parent().map(|p| p.id().get_usize()));
            // what is nested in a node follows it directly
            let inside: Vec<usize> = n.descendants().map(|d| d.id().get_usize()).collect();
            let range: Vec<usize> = (i..i + nodes[i].span).collect();
            assert_eq!(inside, range, "{} at {}", sample, i);
            // the children of a node are the nodes that name it as their parent, in order
            let below: Vec<usize> = n.children().map(|c| c.id().get_usize()).collect();
            assert_eq!(below, children(&nodes, i), "{} at {}", sample, i);
            assert_eq!(n.has_children(), nodes[i].span > 1);
        }
    }
}
