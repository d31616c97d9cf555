use webdav_fuse::prop::{Prop, PropBuilder, ResourceType};

#[test]
fn prop_new_keeps_every_field() {
    let prop = Prop::new(
        "e1".to_string(),
        "/docs/a.txt".to_string(),
        10,
        ResourceType::File,
        1424301369,
    );
    assert_eq!(prop.etag(), "e1");
    assert_eq!(prop.path(), "/docs/a.txt");
    assert_eq!(prop.size(), 10);
    assert_eq!(prop.resource_type(), ResourceType::File);
    assert_eq!(prop.last_modified(), 1424301369);
}

#[test]
fn builder_starts_blank() {
    let prop = PropBuilder::new().build();
    assert_eq!(prop.etag(), "");
    assert_eq!(prop.path(), "");
    assert_eq!(prop.size(), 0);
    assert_eq!(prop.last_modified(), -1);
    assert_eq!(prop.resource_type(), ResourceType::Invalid);
}

#[test]
fn builder_sets_one_field_at_a_time() {
    let prop = PropBuilder::new().etag("x".to_string()).build();
    assert_eq!(prop.etag(), "x");
    assert_eq!(prop.path(), "");
    assert_eq!(prop.size(), 0);

    let prop = PropBuilder::new().path("/p".to_string()).build();
    assert_eq!(prop.path(), "/p");
    assert_eq!(prop.etag(), "");

    let prop = PropBuilder::new().size(7).build();
    assert_eq!(prop.size(), 7);
    assert_eq!(prop.last_modified(), -1);

    let prop = PropBuilder::new().last_modified(99).build();
    assert_eq!(prop.last_modified(), 99);
    assert_eq!(prop.size(), 0);

    let prop = PropBuilder::new().resource_type(ResourceType::Collection).build();
    assert_eq!(prop.resource_type(), ResourceType::Collection);
    assert_eq!(prop.last_modified(), -1);
}

#[test]
fn builder_keeps_the_last_value_set() {
    let prop = PropBuilder::new()
        .size(1)
        .etag("a".to_string())
        .size(2)
        .etag("b".to_string())
        .path("/x".to_string())
        .resource_type(ResourceType::File)
        .last_modified(5)
        .build();
    assert_eq!(prop.size(), 2);
    assert_eq!(prop.etag(), "b");
    assert_eq!(prop.path(), "/x");
    assert_eq!(prop.resource_type(), ResourceType::File);
    assert_eq!(prop.last_modified(), 5);
}
