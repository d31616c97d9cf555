use webdav_fuse::date::timestamp_from;
use webdav_fuse::errors::Errors;
use webdav_fuse::multistatus::{
    finish, read_property, read_response, records_of, resource_type_of, Draft,
};
use webdav_fuse::prop::ResourceType;
use webdav_fuse::webdav::parse_multistatus;
use webdav_fuse::xml::XmlNode;

fn response(href: &str, props: &str) -> String {
    format!(
        "<d:response><d:href>{}</d:href><d:propstat><d:prop>{}</d:prop>\
         <d:status>HTTP/1.1 200 OK</d:status></d:propstat></d:response>",
        href, props
    )
}

fn multistatus(responses: &[String]) -> String {
    format!(
        "<?xml version=\"1.0\"?>\n<d:multistatus xmlns:d=\"DAV:\">\n{}\n</d:multistatus>",
        responses.join("\n")
    )
}

const FILE_PROPS: &str = "<d:getlastmodified>Wed, 18 Feb 2015 23:16:09 GMT</d:getlastmodified>\
    <d:getcontentlength>10</d:getcontentlength><d:resourcetype/><d:getetag>\"e1\"</d:getetag>";

const DIR_PROPS: &str = "<d:getlastmodified>Tue, 1 Jul 2003 10:52:37 +0200</d:getlastmodified>\
    <d:resourcetype><d:collection/></d:resourcetype><d:getetag>\"e2\"</d:getetag>";

fn missing_tag(result: Result<Vec<webdav_fuse::prop::Prop>, Errors>) -> String {
    match result {
        Err(Errors::XMLTagEmptyWhenItShouldNot(tag)) => tag,
        other => panic!("expected a missing tag, got {:?}", other),
    }
}

#[test]
fn one_record_for_each_response_in_document_order() {
    let body = multistatus(&[
        response("/docs/", DIR_PROPS),
        response("/docs/a.txt", FILE_PROPS),
        response("/docs/sub/", DIR_PROPS),
        response("/docs/b.txt", FILE_PROPS),
    ]);
    let props = parse_multistatus(&body).unwrap();
    assert_eq!(props.len(), 4);
    assert_eq!(props[0].path(), "/docs/");
    assert_eq!(props[1].path(), "/docs/a.txt");
    assert_eq!(props[2].path(), "/docs/sub/");
    assert_eq!(props[3].path(), "/docs/b.txt");
}

#[test]
fn a_document_without_responses_holds_no_records() {
    let props = parse_multistatus(&multistatus(&[])).unwrap();
    assert_eq!(props.len(), 0);
}

#[test]
fn a_file_record_holds_what_the_document_states() {
    let props = parse_multistatus(&multistatus(&[response("/docs/a.txt", FILE_PROPS)])).unwrap();
    assert_eq!(props.len(), 1);
    assert_eq!(props[0].path(), "/docs/a.txt");
    assert_eq!(props[0].size(), 10);
    assert_eq!(props[0].etag(), "e1");
    assert_eq!(props[0].resource_type(), ResourceType::File);
    assert_eq!(props[0].last_modified(), 1424301369);
}

#[test]
fn a_date_is_read_with_its_offset() {
    let props = parse_multistatus(&multistatus(&[response("/docs/", DIR_PROPS)])).unwrap();
    assert_eq!(props[0].last_modified(), 1057049557);
}

#[test]
fn a_date_before_the_epoch_is_kept() {
    let body = multistatus(&[response(
        "/old",
        "<d:getlastmodified>Wed, 31 Dec 1969 23:59:59 GMT</d:getlastmodified>\
         <d:getcontentlength>1</d:getcontentlength><d:resourcetype/>",
    )]);
    let props = parse_multistatus(&body).unwrap();
    assert_eq!(props[0].last_modified(), -1);
}

#[test]
fn resourcetype_with_a_nested_element_is_a_collection() {
    let props = parse_multistatus(&multistatus(&[response("/docs/sub/", DIR_PROPS)])).unwrap();
    assert_eq!(props[0].resource_type(), ResourceType::Collection);
}

#[test]
fn empty_resourcetype_is_a_file() {
    let props = parse_multistatus(&multistatus(&[response("/docs/a.txt", FILE_PROPS)])).unwrap();
    assert_eq!(props[0].resource_type(), ResourceType::File);
    let spelled_out = FILE_PROPS.replace("<d:resourcetype/>", "<d:resourcetype></d:resourcetype>");
    let props = parse_multistatus(&multistatus(&[response("/docs/a.txt", &spelled_out)])).unwrap();
    assert_eq!(props[0].resource_type(), ResourceType::File);
}

#[test]
fn resourcetype_with_nothing_but_text_is_a_file() {
    let padded = FILE_PROPS.replace("<d:resourcetype/>", "<d:resourcetype> \n </d:resourcetype>");
    let props = parse_multistatus(&multistatus(&[response("/docs/a.txt", &padded)])).unwrap();
    assert_eq!(props[0].resource_type(), ResourceType::File);
}

#[test]
fn etag_is_stored_without_its_quotes() {
    let props = parse_multistatus(&multistatus(&[response(
        "/docs/a.txt",
        &FILE_PROPS.replace("\"e1\"", "\"abc123\""),
    )]))
    .unwrap();
    assert_eq!(props[0].etag(), "abc123");
}

#[test]
fn a_record_without_etag_has_an_empty_one() {
    let props = parse_multistatus(&multistatus(&[response(
        "/docs/a.txt",
        &FILE_PROPS.replace("<d:getetag>\"e1\"</d:getetag>", ""),
    )]))
    .unwrap();
    assert_eq!(props[0].etag(), "");
}

#[test]
fn a_length_that_is_no_number_is_an_error() {
    for bad in ["ten", "-1", "1.5", "10 bytes", "18446744073709551616"] {
        let body = multistatus(&[response(
            "/docs/a.txt",
            &FILE_PROPS.replace(">10<", &format!(">{}<", bad)),
        )]);
        assert!(matches!(parse_multistatus(&body), Err(Errors::PropSizeError)), "{}", bad);
    }
}

#[test]
fn a_date_that_is_no_date_is_an_error() {
    for bad in ["yesterday", "2015-02-18T23:16:09Z", "Wed, 31 Feb 2015 23:16:09 GMT", "0"] {
        let body = multistatus(&[response(
            "/docs/a.txt",
            &FILE_PROPS.replace("Wed, 18 Feb 2015 23:16:09 GMT", bad),
        )]);
        assert!(
            matches!(parse_multistatus(&body), Err(Errors::DateTimeConversionError(_))),
            "{}",
            bad
        );
    }
}

#[test]
fn the_first_failing_property_decides_the_error() {
    let both_bad = "<d:getcontentlength>x</d:getcontentlength>\
        <d:getlastmodified>y</d:getlastmodified><d:resourcetype/>";
    let body = multistatus(&[response("/a", both_bad)]);
    assert!(matches!(parse_multistatus(&body), Err(Errors::PropSizeError)));
    let other_order = "<d:getlastmodified>y</d:getlastmodified>\
        <d:getcontentlength>x</d:getcontentlength><d:resourcetype/>";
    let body = multistatus(&[response("/a", other_order)]);
    assert!(matches!(parse_multistatus(&body), Err(Errors::DateTimeConversionError(_))));
}

#[test]
fn the_first_failing_response_decides_the_error() {
    let body = multistatus(&[
        response("/ok", FILE_PROPS),
        response("/bad-size", &FILE_PROPS.replace(">10<", ">x<")),
        response("/bad-date", &FILE_PROPS.replace("Wed,", "Wednesday,")),
    ]);
    assert!(matches!(parse_multistatus(&body), Err(Errors::PropSizeError)));
}

#[test]
fn a_response_without_prop_is_an_error() {
    let body = multistatus(&["<d:response><d:href>/a</d:href></d:response>".to_string()]);
    assert_eq!(missing_tag(parse_multistatus(&body)), "prop");
}

#[test]
fn a_response_without_href_is_an_error() {
    let body = multistatus(&[format!(
        "<d:response><d:propstat><d:prop>{}</d:prop></d:propstat></d:response>",
        FILE_PROPS
    )]);
    assert_eq!(missing_tag(parse_multistatus(&body)), "href");
}

#[test]
fn an_href_without_text_is_an_error() {
    let body = multistatus(&[response("", FILE_PROPS)]);
    assert_eq!(missing_tag(parse_multistatus(&body)), "href");
}

#[test]
fn a_property_without_text_is_an_error() {
    let body = multistatus(&[response(
        "/a",
        &FILE_PROPS.replace("<d:getetag>\"e1\"</d:getetag>", "<d:getetag/>"),
    )]);
    assert_eq!(missing_tag(parse_multistatus(&body)), "getetag");
    let body = multistatus(&[response(
        "/a",
        &FILE_PROPS.replace("<d:getcontentlength>10</d:getcontentlength>", "<d:getcontentlength/>"),
    )]);
    assert_eq!(missing_tag(parse_multistatus(&body)), "getcontentlength");
    let body = multistatus(&[response("/a", "<d:getlastmodified/><d:resourcetype/>")]);
    assert_eq!(missing_tag(parse_multistatus(&body)), "getlastmodified");
}

#[test]
fn a_record_without_type_never_comes_out() {
    let body = multistatus(&[response("/a", &FILE_PROPS.replace("<d:resourcetype/>", ""))]);
    assert_eq!(missing_tag(parse_multistatus(&body)), "resourcetype");
}

#[test]
fn a_record_without_date_never_comes_out() {
    let body = multistatus(&[response(
        "/a",
        "<d:getcontentlength>10</d:getcontentlength><d:resourcetype/>",
    )]);
    assert_eq!(missing_tag(parse_multistatus(&body)), "getlastmodified");
}

#[test]
fn a_file_without_length_never_comes_out() {
    let body = multistatus(&[response(
        "/a",
        &FILE_PROPS.replace("<d:getcontentlength>10</d:getcontentlength>", ""),
    )]);
    assert_eq!(missing_tag(parse_multistatus(&body)), "getcontentlength");
}

#[test]
fn a_collection_without_length_has_size_zero() {
    let props = parse_multistatus(&multistatus(&[response("/docs/sub/", DIR_PROPS)])).unwrap();
    assert_eq!(props[0].size(), 0);
    let sized = format!("{}<d:getcontentlength>4096</d:getcontentlength>", DIR_PROPS);
    let props = parse_multistatus(&multistatus(&[response("/docs/sub/", &sized)])).unwrap();
    assert_eq!(props[0].size(), 4096);
}

#[test]
fn unknown_properties_are_passed_over() {
    let extra = format!(
        "<d:getcontenttype>text/plain</d:getcontenttype><d:quota-used-bytes>x</d:quota-used-bytes>\
         <!-- a comment -->{}",
        FILE_PROPS
    );
    let props = parse_multistatus(&multistatus(&[response("/docs/a.txt", &extra)])).unwrap();
    assert_eq!(props.len(), 1);
    assert_eq!(props[0].size(), 10);
}

#[test]
fn only_the_children_of_prop_are_properties() {
    let nested = format!(
        "{}<d:lockdiscovery><d:getcontentlength>999</d:getcontentlength></d:lockdiscovery>",
        FILE_PROPS
    );
    let props = parse_multistatus(&multistatus(&[response("/docs/a.txt", &nested)])).unwrap();
    assert_eq!(props[0].size(), 10);
}

#[test]
fn the_namespace_prefix_does_not_matter() {
    let body = "<multistatus xmlns=\"DAV:\"><response><href>/x</href><propstat><prop>\
        <getlastmodified>Wed, 18 Feb 2015 23:16:09 GMT</getlastmodified>\
        <getcontentlength>3</getcontentlength><resourcetype/></prop></propstat></response>\
        </multistatus>";
    let props = parse_multistatus(body).unwrap();
    assert_eq!(props.len(), 1);
    assert_eq!(props[0].path(), "/x");
    assert_eq!(props[0].size(), 3);
}

#[test]
fn text_that_is_no_xml_is_an_error() {
    assert!(matches!(parse_multistatus("not xml"), Err(Errors::XMLDocumentParseError(_))));
    assert!(matches!(parse_multistatus(""), Err(Errors::XMLDocumentParseError(_))));
    assert!(matches!(
        parse_multistatus("<d:multistatus xmlns:d=\"DAV:\"><d:response>"),
        Err(Errors::XMLDocumentParseError(_))
    ));
}

fn element(name: &str, text: Option<&str>, parent: Option<usize>, span: usize) -> XmlNode {
    XmlNode {
        is_element: true,
        name: name.to_string(),
        text: text.map(|t| t.to_string()),
        parent,
        span,
    }
}

fn text(content: &str, parent: usize) -> XmlNode {
    XmlNode {
        is_element: false,
        name: String::new(),
        text: Some(content.to_string()),
        parent: Some(parent),
        span: 1,
    }
}

/// root, multistatus, response, href + text, prop, getcontentlength + text,
/// resourcetype, collection
fn small_document() -> Vec<XmlNode> {
    vec![
        XmlNode { is_element: false, name: String::new(), text: None, parent: None, span: 10 },
        element("multistatus", None, Some(0), 9),
        element("response", None, Some(1), 8),
        element("href", Some("/docs/sub/"), Some(2), 2),
        text("/docs/sub/", 3),
        element("prop", None, Some(2), 5),
        element("getcontentlength", Some("12"), Some(5), 2),
        text("12", 6),
        element("resourcetype", None, Some(5), 2),
        element("collection", None, Some(8), 1),
    ]
}

#[test]
fn records_of_reads_a_document_written_by_hand() {
    let mut nodes = small_document();
    // no date yet: the record is refused
    assert_eq!(missing_tag(records_of(&nodes)), "getlastmodified");
    // a collection without a date, but with a `prop` that does not reach far
    // enough to hold the length
    nodes[5].span = 1;
    assert_eq!(missing_tag(records_of(&nodes)), "resourcetype");
}

#[test]
fn records_of_takes_a_span_beyond_the_list_as_the_rest_of_the_list() {
    let mut nodes = small_document();
    nodes[2].span = usize::MAX;
    nodes[5].span = 1000;
    assert_eq!(missing_tag(records_of(&nodes)), "getlastmodified");
    nodes[2].span = 1;
    assert_eq!(missing_tag(records_of(&nodes)), "prop");
}

#[test]
fn resource_type_of_looks_for_an_element_inside() {
    let nodes = small_document();
    assert_eq!(resource_type_of(&nodes, 8), ResourceType::Collection);
    assert_eq!(resource_type_of(&nodes, 6), ResourceType::File);
    assert_eq!(resource_type_of(&nodes, 9), ResourceType::File);
    assert_eq!(resource_type_of(&nodes, 2), ResourceType::Collection);
}

fn blank() -> Draft {
    Draft { etag: String::new(), size: None, last_modified: None, resource_type: None }
}

#[test]
fn read_property_sets_the_field_of_its_tag_only() {
    let nodes = small_document();
    let draft = read_property(&nodes, 6, blank()).unwrap();
    assert_eq!(draft.size, Some(12));
    assert_eq!(draft.last_modified, None);
    assert_eq!(draft.resource_type, None);
    assert_eq!(draft.etag, "");
    let draft = read_property(&nodes, 8, draft).unwrap();
    assert_eq!(draft.size, Some(12));
    assert_eq!(draft.resource_type, Some(ResourceType::Collection));
    // text and unknown elements change nothing
    let draft = read_property(&nodes, 7, draft).unwrap();
    let draft = read_property(&nodes, 3, draft).unwrap();
    assert_eq!(draft.size, Some(12));
    assert_eq!(draft.resource_type, Some(ResourceType::Collection));
    assert_eq!(draft.last_modified, None);
    assert_eq!(draft.etag, "");
}

#[test]
fn finish_wants_type_and_date_and_for_a_file_the_size() {
    let draft = Draft {
        etag: "e".to_string(),
        size: Some(3),
        last_modified: Some(7),
        resource_type: Some(ResourceType::File),
    };
    let prop = finish("/p".to_string(), draft).unwrap();
    assert_eq!(prop.path(), "/p");
    assert_eq!(prop.etag(), "e");
    assert_eq!(prop.size(), 3);
    assert_eq!(prop.last_modified(), 7);
    assert_eq!(prop.resource_type(), ResourceType::File);

    let no_size = Draft { size: None, last_modified: Some(7), resource_type: Some(ResourceType::File), etag: String::new() };
    assert!(matches!(finish("/p".to_string(), no_size), Err(Errors::XMLTagEmptyWhenItShouldNot(tag)) if tag == "getcontentlength"));
    let dir = Draft { size: None, last_modified: Some(7), resource_type: Some(ResourceType::Collection), etag: String::new() };
    assert_eq!(finish("/p".to_string(), dir).unwrap().size(), 0);
    let no_date = Draft { size: Some(1), last_modified: None, resource_type: Some(ResourceType::File), etag: String::new() };
    assert!(matches!(finish("/p".to_string(), no_date), Err(Errors::XMLTagEmptyWhenItShouldNot(tag)) if tag == "getlastmodified"));
    let no_type = Draft { size: Some(1), last_modified: Some(1), resource_type: None, etag: String::new() };
    assert!(matches!(finish("/p".to_string(), no_type), Err(Errors::XMLTagEmptyWhenItShouldNot(tag)) if tag == "resourcetype"));
}

#[test]
fn read_response_reads_the_first_prop_and_the_first_href() {
    let mut nodes = small_document();
    nodes.push(element("getlastmodified", None, Some(5), 1));
    nodes[0].span = 11;
    nodes[1].span = 10;
    nodes[2].span = 9;
    nodes[5].span = 6;
    // the date has no text
    assert_eq!(
        match read_response(&nodes, 2) {
            Err(Errors::XMLTagEmptyWhenItShouldNot(tag)) => tag,
            other => panic!("{:?}", other),
        },
        "getlastmodified"
    );
    // without it the record lacks its date
    nodes[10].name = "other".to_string();
    assert_eq!(
        match read_response(&nodes, 2) {
            Err(Errors::XMLTagEmptyWhenItShouldNot(tag)) => tag,
            other => panic!("{:?}", other),
        },
        "getlastmodified"
    );
    // an element that is no response has no href of its own
    assert_eq!(
        match read_response(&nodes, 5) {
            Err(Errors::XMLTagEmptyWhenItShouldNot(tag)) => tag,
            other => panic!("{:?}", other),
        },
        "href"
    );
}

#[test]
fn timestamp_from_keeps_the_seconds_or_the_error() {
    let read = chrono::DateTime::parse_from_rfc2822("Wed, 18 Feb 2015 23:16:09 GMT")
        .map(|date| date.timestamp());
    assert_eq!(timestamp_from(read).unwrap(), 1424301369);
    let refused = chrono::DateTime::parse_from_rfc2822("soon").map(|date| date.timestamp());
    let expected = refused.clone().unwrap_err();
    assert!(matches!(
        timestamp_from(refused),
        Err(Errors::DateTimeConversionError(e)) if e == expected
    ));
}
