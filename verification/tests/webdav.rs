use webdav_fuse::errors::Errors;
use webdav_fuse::webdav::{PropfindDepth, PropfindReply, WebdavDrive};

const BODY: &str = "<d:multistatus xmlns:d=\"DAV:\"><d:response><d:href>/docs/a.txt</d:href>\
    <d:propstat><d:prop><d:getlastmodified>Wed, 18 Feb 2015 23:16:09 GMT</d:getlastmodified>\
    <d:getcontentlength>10</d:getcontentlength><d:resourcetype/><d:getetag>\"e1\"</d:getetag>\
    </d:prop></d:propstat></d:response></d:multistatus>";

#[test]
fn depth_header_values() {
    let element_only: &str = PropfindDepth::ElementOnly.into();
    let with_children: &str = PropfindDepth::WithChildren.into();
    let recursive: &str = PropfindDepth::Recursive.into();
    assert_eq!(element_only, "0");
    assert_eq!(with_children, "1");
    assert_eq!(recursive, "infinity");
}

#[test]
fn request_puts_the_prefix_before_the_path() {
    let drive = WebdavDrive::new("https://cloud.example/dav/files/test".to_string());
    let request = drive.request("/docs", PropfindDepth::WithChildren);
    assert_eq!(request.url, "https://cloud.example/dav/files/test/docs");
    assert_eq!(request.depth, PropfindDepth::WithChildren);
    let request = drive.request("/", PropfindDepth::Recursive);
    assert_eq!(request.url, "https://cloud.example/dav/files/test/");
    assert_eq!(request.depth, PropfindDepth::Recursive);
    let request = WebdavDrive::new(String::new()).request("", PropfindDepth::ElementOnly);
    assert_eq!(request.url, "");
}

#[test]
fn list_of_a_failed_request_is_request_failed() {
    let drive = WebdavDrive::new("https://cloud.example".to_string());
    assert!(matches!(drive.list(&PropfindReply::Failed), Err(Errors::WebDavReqeustFailed)));
}

#[test]
fn list_of_an_answer_without_success_is_request_failed() {
    let drive = WebdavDrive::new("https://cloud.example".to_string());
    for status in [100u16, 199, 300, 301, 401, 404, 500] {
        let reply = PropfindReply::Answer { status, body: BODY.to_string() };
        assert!(matches!(drive.list(&reply), Err(Errors::WebDavReqeustFailed)), "{}", status);
    }
}

#[test]
fn list_of_a_successful_answer_decodes_its_body() {
    let drive = WebdavDrive::new("https://cloud.example".to_string());
    for status in [200u16, 207, 299] {
        let reply = PropfindReply::Answer { status, body: BODY.to_string() };
        let props = drive.list(&reply).unwrap();
        assert_eq!(props.len(), 1);
        assert_eq!(props[0].path(), "/docs/a.txt");
        assert_eq!(props[0].size(), 10);
    }
}

#[test]
fn list_of_a_successful_answer_that_is_no_xml_is_a_parse_error() {
    let drive = WebdavDrive::new("https://cloud.example".to_string());
    let reply = PropfindReply::Answer { status: 207, body: "<html>".to_string() };
    assert!(matches!(drive.list(&reply), Err(Errors::XMLDocumentParseError(_))));
}
