//! Decoding a multistatus document, the body of a successful PROPFIND answer,
//! into one property record for each `response` element.
use vstd::prelude::*;

use crate::date::{parse_rfc2822, rfc2822_timestamp, timestamp_from};
use crate::errors::{outcome, ErrorKind, Errors};
use crate::prop::{Prop, PropBuilder, PropView, ResourceType};
use crate::text::{decimal_u64, parse_decimal, same_text, strip_quotes, unquoted};
use crate::xml::{node_views, XmlNode, XmlNodeView};

verus! {

// ---------------------------------------------------------------------------
// The tree in the list
// ---------------------------------------------------------------------------
/// Whether `node` is an element with the tag `tag`, in whatever namespace.
pub open spec fn named(node: XmlNodeView, tag: Seq<char>) -> bool {
    node.is_element && node.name == tag
}

/// One past the last node that is nested in node `i`. A span that reaches
/// beyond the list ends with the list.
pub open spec fn subtree_end(nodes: Seq<XmlNodeView>, i: int) -> int {
    if i + nodes[i].span <= nodes.len() {
        i + nodes[i].span
    } else {
        nodes.len() as int
    }
}

/// The first element with the tag `tag` among the nodes from `from` up to `to`.
pub open spec fn first_named(nodes: Seq<XmlNodeView>, tag: Seq<char>, from: int, to: int) -> Option<
    int,
>
    decreases to - from,
{
    if from >= to {
        None
    } else if named(nodes[from], tag) {
        Some(from)
    } else {
        first_named(nodes, tag, from + 1, to)
    }
}

/// Whether an element is nested in node `i`, at whatever depth.
pub open spec fn has_element_inside(nodes: Seq<XmlNodeView>, i: int) -> bool {
    exists|j: int| i < j < subtree_end(nodes, i) && (#[trigger] nodes[j]).is_element
}

// ---------------------------------------------------------------------------
// One record
// ---------------------------------------------------------------------------
/// What the properties read so far have said of an entry. A field that no
/// property has set is `None`, so that it cannot pass for a value.
#[derive(Debug)]
pub struct Draft {
    pub etag: String,
    pub size: Option<u64>,
    pub last_modified: Option<i64>,
    pub resource_type: Option<ResourceType>,
}

/// What a [`Draft`] holds.
pub struct DraftView {
    pub etag: Seq<char>,
    pub size: Option<u64>,
    pub last_modified: Option<i64>,
    pub resource_type: Option<ResourceType>,
}

impl View for Draft {
    type V = DraftView;

    open spec fn view(&self) -> DraftView {
        DraftView {
            etag: self.etag@,
            size: self.size,
            last_modified: self.last_modified,
            resource_type: self.resource_type,
        }
    }
}

/// The draft that no property has touched.
pub open spec fn blank_draft() -> DraftView {
    DraftView { etag: Seq::empty(), size: None, last_modified: None, resource_type: None }
}

/// The error for an element `tag` that is missing, or holds no text.
pub open spec fn missing(tag: Seq<char>) -> ErrorKind {
    ErrorKind::XMLTagEmptyWhenItShouldNot(tag)
}

/// The type that a `resourcetype` element at `j` states: a collection where
/// an element is nested in it, a file where none is.
pub open spec fn resource_type_at(nodes: Seq<XmlNodeView>, j: int) -> ResourceType {
    if has_element_inside(nodes, j) {
        ResourceType::Collection
    } else {
        ResourceType::File
    }
}

/// The draft `d` after the node `j` has been read as a property. A node that
/// is none of the four known properties leaves the draft as it is.
pub open spec fn with_property(nodes: Seq<XmlNodeView>, j: int, d: DraftView) -> Result<
    DraftView,
    ErrorKind,
> {
    let node = nodes[j];
    if named(node, "getlastmodified"@) {
        match node.text {
            None => Err(missing("getlastmodified"@)),
            Some(text) => match rfc2822_timestamp(text) {
                None => Err(ErrorKind::DateTimeConversionError),
                Some(seconds) => Ok(DraftView { last_modified: Some(seconds), ..d }),
            },
        }
    } else if named(node, "resourcetype"@) {
        Ok(DraftView { resource_type: Some(resource_type_at(nodes, j)), ..d })
    } else if named(node, "getcontentlength"@) {
        match node.text {
            None => Err(missing("getcontentlength"@)),
            Some(text) => match decimal_u64(text) {
                None => Err(ErrorKind::PropSizeError),
                Some(size) => Ok(DraftView { size: Some(size), ..d }),
            },
        }
    } else if named(node, "getetag"@) {
        match node.text {
            None => Err(missing("getetag"@)),
            Some(text) => Ok(DraftView { etag: unquoted(text), ..d }),
        }
    } else {
        Ok(d)
    }
}

/// The draft `d` after the nodes from `from` up to `to` that are nested
/// directly in `p` have been read as properties, one after the other. The
/// first one that fails ends the reading.
pub open spec fn with_children(
    nodes: Seq<XmlNodeView>,
    p: int,
    from: int,
    to: int,
    d: DraftView,
) -> Result<DraftView, ErrorKind>
    decreases to - from,
{
    if from >= to {
        Ok(d)
    } else if nodes[from].parent == Some(p as usize) {
        match with_property(nodes, from, d) {
            Err(e) => Err(e),
            Ok(next) => with_children(nodes, p, from + 1, to, next),
        }
    } else {
        with_children(nodes, p, from + 1, to, d)
    }
}

/// The record that a finished draft makes. The type and the time of the
/// last change must have been stated, and the size too unless the entry is a
/// collection, whose size is 0 where none was stated.
pub open spec fn finished(path: Seq<char>, d: DraftView) -> Result<PropView, ErrorKind> {
    match d.resource_type {
        None => Err(missing("resourcetype"@)),
        Some(resource_type) => match d.last_modified {
            None => Err(missing("getlastmodified"@)),
            Some(last_modified) => match d.size {
                Some(size) => Ok(
                    PropView { etag: d.etag, path, size, last_modified, resource_type },
                ),
                None => if resource_type == ResourceType::Collection {
                    Ok(PropView { etag: d.etag, path, size: 0, last_modified, resource_type })
                } else {
                    Err(missing("getcontentlength"@))
                },
            },
        },
    }
}

/// The record of the `response` element at `r`: its path is the text of the
/// first `href` nested in it, its fields are what the children of the first
/// `prop` nested in it state.
pub open spec fn record_of(nodes: Seq<XmlNodeView>, r: int) -> Result<PropView, ErrorKind> {
    let end = subtree_end(nodes, r);
    match first_named(nodes, "prop"@, r, end) {
        None => Err(missing("prop"@)),
        Some(p) => match first_named(nodes, "href"@, r, end) {
            None => Err(missing("href"@)),
            Some(h) => match nodes[h].text {
                None => Err(missing("href"@)),
                Some(path) => match with_children(
                    nodes,
                    p,
                    p + 1,
                    subtree_end(nodes, p),
                    blank_draft(),
                ) {
                    Err(e) => Err(e),
                    Ok(d) => finished(path, d),
                },
            },
        },
    }
}

// ---------------------------------------------------------------------------
// All records
// ---------------------------------------------------------------------------
/// The records of the `response` elements from node `i` on, in document
/// order, or the error of the first of them that has none.
pub open spec fn records_from(nodes: Seq<XmlNodeView>, i: int) -> Result<Seq<PropView>, ErrorKind>
    decreases nodes.len() - i,
{
    if i >= nodes.len() {
        Ok(Seq::empty())
    } else if !named(nodes[i], "response"@) {
        records_from(nodes, i + 1)
    } else {
        match record_of(nodes, i) {
            Err(e) => Err(e),
            Ok(record) => match records_from(nodes, i + 1) {
                Err(e) => Err(e),
                Ok(rest) => Ok(seq![record] + rest),
            },
        }
    }
}

/// The records that a document holds: one for each `response` element.
pub open spec fn records(nodes: Seq<XmlNodeView>) -> Result<Seq<PropView>, ErrorKind> {
    records_from(nodes, 0)
}

/// What a list of records holds.
pub open spec fn prop_views(props: Seq<Prop>) -> Seq<PropView> {
    props.map_values(|p: Prop| p@)
}

/// What the outcome of decoding holds.
pub open spec fn listing(r: Result<Vec<Prop>, Errors>) -> Result<Seq<PropView>, ErrorKind> {
    match r {
        Ok(props) => Ok(prop_views(props@)),
        Err(e) => Err(e@),
    }
}

// ---------------------------------------------------------------------------
// Reading
// ---------------------------------------------------------------------------
fn is_named(node: &XmlNode, tag: &str) -> (r: bool)
    ensures
        r == named(node@, tag@),
{
    node.is_element && same_text(node.name.as_str(), tag)
}

fn end_of_subtree(nodes: &Vec<XmlNode>, i: usize) -> (r: usize)
    requires
        i < nodes.len(),
    ensures
        r == subtree_end(node_views(nodes@), i as int),
        i <= r <= nodes.len(),
{
    match i.checked_add(nodes[i].span) {
        Some(end) => if end <= nodes.len() {
            end
        } else {
            nodes.len()
        },
        None => nodes.len(),
    }
}

fn find_named(nodes: &Vec<XmlNode>, tag: &str, from: usize, to: usize) -> (r: Option<usize>)
    requires
        from <= to <= nodes.len(),
    ensures
        match r {
            Some(k) => first_named(node_views(nodes@), tag@, from as int, to as int) == Some(
                k as int,
            ) && from <= k < to,
            None => first_named(node_views(nodes@), tag@, from as int, to as int) is None,
        },
{
    let mut i = from;
    while i < to
        invariant
            from <= i <= to <= nodes.len(),
            first_named(node_views(nodes@), tag@, from as int, to as int) == first_named(
                node_views(nodes@),
                tag@,
                i as int,
                to as int,
            ),
        decreases to - i,
    {
        if is_named(&nodes[i], tag) {
            return Some(i);
        }
        i += 1;
    }
    None
}

/// Tells a collection from a file by the `resourcetype` element at `j`.
pub fn resource_type_of(nodes: &Vec<XmlNode>, j: usize) -> (r: ResourceType)
    requires
        j < nodes.len(),
    ensures
        r == resource_type_at(node_views(nodes@), j as int),
{
    let end = end_of_subtree(nodes, j);
    let mut i = j + 1;
    while i < end
        invariant
            j < i,
            end <= nodes.len(),
            end == subtree_end(node_views(nodes@), j as int),
            forall|k: int| j < k < i ==> !(#[trigger] node_views(nodes@)[k]).is_element,
        decreases end - i,
    {
        if nodes[i].is_element {
            assert(node_views(nodes@)[i as int].is_element);
            return ResourceType::Collection;
        }
        i += 1;
    }
    ResourceType::File
}

/// Reads the node `j` as a property into `draft`.
pub fn read_property(nodes: &Vec<XmlNode>, j: usize, draft: Draft) -> (r: Result<Draft, Errors>)
    requires
        j < nodes.len(),
    ensures
        outcome(r) == with_property(node_views(nodes@), j as int, draft@),
{
    let node = &nodes[j];
    let mut draft = draft;
    if is_named(node, "getlastmodified") {
        match &node.text {
            None => Err(Errors::XMLTagEmptyWhenItShouldNot("getlastmodified".to_owned())),
            Some(text) => {
                let seconds = timestamp_from(parse_rfc2822(text.as_str()))?;
                draft.last_modified = Some(seconds);
                Ok(draft)
            },
        }
    } else if is_named(node, "resourcetype") {
        draft.resource_type = Some(resource_type_of(nodes, j));
        Ok(draft)
    } else if is_named(node, "getcontentlength") {
        match &node.text {
            None => Err(Errors::XMLTagEmptyWhenItShouldNot("getcontentlength".to_owned())),
            Some(text) => match parse_decimal(text.as_str()) {
                None => Err(Errors::PropSizeError),
                Some(size) => {
                    draft.size = Some(size);
                    Ok(draft)
                },
            },
        }
    } else if is_named(node, "getetag") {
        match &node.text {
            None => Err(Errors::XMLTagEmptyWhenItShouldNot("getetag".to_owned())),
            Some(text) => {
                draft.etag = strip_quotes(text.as_str());
                Ok(draft)
            },
        }
    } else {
        Ok(draft)
    }
}

/// Reads the children of the `prop` element at `p` into a fresh draft.
fn read_children(nodes: &Vec<XmlNode>, p: usize) -> (r: Result<Draft, Errors>)
    requires
        p < nodes.len(),
    ensures
        outcome(r) == with_children(
            node_views(nodes@),
            p as int,
            p + 1,
            subtree_end(node_views(nodes@), p as int),
            blank_draft(),
        ),
{
    let end = end_of_subtree(nodes, p);
    let mut draft = Draft { etag: String::new(), size: None, last_modified: None, resource_type: None };
    let mut i = p + 1;
    while i < end
        invariant
            p < i,
            end <= nodes.len(),
            end == subtree_end(node_views(nodes@), p as int),
            with_children(node_views(nodes@), p as int, i as int, end as int, draft@)
                == with_children(node_views(nodes@), p as int, p + 1, end as int, blank_draft()),
        decreases end - i,
    {
        let is_child = match nodes[i].parent {
            Some(parent) => parent == p,
            None => false,
        };
        if is_child {
            draft = read_property(nodes, i, draft)?;
        }
        i += 1;
    }
    Ok(draft)
}

/// Makes the record of the entry at `path` out of a finished draft.
pub fn finish(path: String, draft: Draft) -> (r: Result<Prop, Errors>)
    ensures
        outcome(r) == finished(path@, draft@),
{
    let resource_type = match draft.resource_type {
        Some(resource_type) => resource_type,
        None => return Err(Errors::XMLTagEmptyWhenItShouldNot("resourcetype".to_owned())),
    };
    let last_modified = match draft.last_modified {
        Some(last_modified) => last_modified,
        None => return Err(Errors::XMLTagEmptyWhenItShouldNot("getlastmodified".to_owned())),
    };
    let size = match draft.size {
        Some(size) => size,
        None => match resource_type {
            ResourceType::Collection => 0,
            _ => return Err(Errors::XMLTagEmptyWhenItShouldNot("getcontentlength".to_owned())),
        },
    };
    Ok(
        PropBuilder::new().path(path).etag(draft.etag).size(size).last_modified(
            last_modified,
        ).resource_type(resource_type).build(),
    )
}

/// Reads the record of the `response` element at `r`.
pub fn read_response(nodes: &Vec<XmlNode>, at: usize) -> (r: Result<Prop, Errors>)
    requires
        at < nodes.len(),
    ensures
        outcome(r) == record_of(node_views(nodes@), at as int),
{
    let end = end_of_subtree(nodes, at);
    let p = match find_named(nodes, "prop", at, end) {
        Some(p) => p,
        None => return Err(Errors::XMLTagEmptyWhenItShouldNot("prop".to_owned())),
    };
    let h = match find_named(nodes, "href", at, end) {
        Some(h) => h,
        None => return Err(Errors::XMLTagEmptyWhenItShouldNot("href".to_owned())),
    };
    let path = match &nodes[h].text {
        Some(text) => text.clone(),
        None => return Err(Errors::XMLTagEmptyWhenItShouldNot("href".to_owned())),
    };
    let draft = read_children(nodes, p)?;
    finish(path, draft)
}

/// Decodes a parsed multistatus document: one record for each `response`
/// element, in document order, or the error of the first one that cannot be
/// read.
pub fn records_of(nodes: &Vec<XmlNode>) -> (r: Result<Vec<Prop>, Errors>)
    ensures
        listing(r) == records(node_views(nodes@)),
{
    let mut out: Vec<Prop> = Vec::new();
    let mut i: usize = 0;
    while i < nodes.len()
        invariant
            i <= nodes.len(),
            records(node_views(nodes@)) == match records_from(node_views(nodes@), i as int) {
                Ok(rest) => Ok::<Seq<PropView>, ErrorKind>(prop_views(out@) + rest),
                Err(e) => Err(e),
            },
        decreases nodes.len() - i,
    {
        if is_named(&nodes[i], "response") {
            let record = read_response(nodes, i)?;
            let ghost before = prop_views(out@);
            out.push(record);
            proof {
                let rest = records_from(node_views(nodes@), i + 1);
                assert(prop_views(out@) =~= before + seq![record@]);
                if rest is Ok {
                    assert(before + (seq![record@] + rest->Ok_0) =~= prop_views(out@)
                        + rest->Ok_0);
                }
            }
        }
        i += 1;
    }
    proof {
        assert(prop_views(out@) + Seq::<PropView>::empty() =~= prop_views(out@));
    }
    Ok(out)
}

// ---------------------------------------------------------------------------
// What holds of every document
// ---------------------------------------------------------------------------
/// The positions of the `response` elements from node `i` on, in document order.
pub open spec fn responses_from(nodes: Seq<XmlNodeView>, i: int) -> Seq<int>
    decreases nodes.len() - i,
{
    if i >= nodes.len() {
        Seq::empty()
    } else if named(nodes[i], "response"@) {
        seq![i] + responses_from(nodes, i + 1)
    } else {
        responses_from(nodes, i + 1)
    }
}

/// The positions of the `response` elements of a document, in document order.
pub open spec fn responses(nodes: Seq<XmlNodeView>) -> Seq<int> {
    responses_from(nodes, 0)
}

proof fn lemma_responses_from(nodes: Seq<XmlNodeView>, i: int)
    requires
        0 <= i,
    ensures
        forall|k: int|
            0 <= k < responses_from(nodes, i).len() ==> {
                let at = #[trigger] responses_from(nodes, i)[k];
                i <= at < nodes.len() && named(nodes[at], "response"@)
            },
        forall|a: int, b: int|
            0 <= a < b < responses_from(nodes, i).len() ==> responses_from(nodes, i)[a]
                < responses_from(nodes, i)[b],
        forall|j: int|
            i <= j < nodes.len() && named(#[trigger] nodes[j], "response"@) ==> responses_from(
                nodes,
                i,
            ).contains(j),
    decreases nodes.len() - i,
{
    let all = responses_from(nodes, i);
    if i >= nodes.len() {
    } else {
        lemma_responses_from(nodes, i + 1);
        let rest = responses_from(nodes, i + 1);
        if named(nodes[i], "response"@) {
            assert(all =~= seq![i] + rest);
            assert forall|j: int|
                i <= j < nodes.len() && named(#[trigger] nodes[j], "response"@) implies all.contains(
                j,
            ) by {
                if j == i {
                    assert(all[0] == i);
                } else {
                    let k = choose|k: int| 0 <= k < rest.len() && rest[k] == j;
                    assert(all[k + 1] == j);
                }
            }
        } else {
            assert(all == rest);
        }
    }
}

/// The positions that [`responses`] lists are those of the `response`
/// elements, each once, in document order.
pub proof fn lemma_responses_in_document_order(nodes: Seq<XmlNodeView>)
    ensures
        forall|k: int|
            0 <= k < responses(nodes).len() ==> {
                let at = #[trigger] responses(nodes)[k];
                0 <= at < nodes.len() && named(nodes[at], "response"@)
            },
        forall|a: int, b: int|
            0 <= a < b < responses(nodes).len() ==> responses(nodes)[a] < responses(nodes)[b],
        forall|j: int|
            0 <= j < nodes.len() && named(#[trigger] nodes[j], "response"@) ==> responses(
                nodes,
            ).contains(j),
{
    lemma_responses_from(nodes, 0);
}

/// Whether `rs` holds the record of each of the `response` elements at `at`,
/// in the same order.
pub open spec fn one_record_each(nodes: Seq<XmlNodeView>, at: Seq<int>, rs: Seq<PropView>) -> bool {
    &&& rs.len() == at.len()
    &&& forall|k: int| 0 <= k < at.len() ==> record_of(nodes, #[trigger] at[k]) == Ok::<_, ErrorKind>(rs[k])
}

/// Whether `e` is the error of the first of the `response` elements at `at`
/// that has no record.
pub open spec fn first_failure(nodes: Seq<XmlNodeView>, at: Seq<int>, e: ErrorKind) -> bool {
    exists|k: int|
        0 <= k < at.len() && record_of(nodes, #[trigger] at[k]) == Err::<PropView, _>(e) && forall|
            j: int,
        |
            0 <= j < k ==> record_of(nodes, #[trigger] at[j]) is Ok
}

proof fn lemma_records_from(nodes: Seq<XmlNodeView>, i: int)
    requires
        0 <= i,
    ensures
        match records_from(nodes, i) {
            Ok(rs) => one_record_each(nodes, responses_from(nodes, i), rs),
            Err(e) => first_failure(nodes, responses_from(nodes, i), e),
        },
    decreases nodes.len() - i,
{
    let at = responses_from(nodes, i);
    if i >= nodes.len() {
    } else {
        lemma_records_from(nodes, i + 1);
        let rest_at = responses_from(nodes, i + 1);
        if named(nodes[i], "response"@) {
            assert(at =~= seq![i] + rest_at);
            match record_of(nodes, i) {
                Err(e) => {
                    assert(at[0] == i);
                },
                Ok(record) => match records_from(nodes, i + 1) {
                    Err(e) => {
                        let k = choose|k: int|
                            0 <= k < rest_at.len() && record_of(nodes, #[trigger] rest_at[k])
                                == Err::<PropView, _>(e) && forall|j: int|
                                0 <= j < k ==> record_of(nodes, #[trigger] rest_at[j]) is Ok;
                        assert(at[k + 1] == rest_at[k]);
                        assert forall|j: int| 0 <= j < k + 1 implies record_of(
                            nodes,
                            #[trigger] at[j],
                        ) is Ok by {
                            if j > 0 {
                                assert(at[j] == rest_at[j - 1]);
                            }
                        }
                    },
                    Ok(rest) => {
                        let rs = seq![record] + rest;
                        assert forall|k: int| 0 <= k < at.len() implies record_of(
                            nodes,
                            #[trigger] at[k],
                        ) == Ok::<_, ErrorKind>(rs[k]) by {
                            if k > 0 {
                                assert(at[k] == rest_at[k - 1]);
                                assert(rs[k] == rest[k - 1]);
                            }
                        }
                    },
                }
            }
        } else {
            assert(at == rest_at);
        }
    }
}

/// A document is decoded into exactly one record for each of its `response`
/// elements, in document order. It is refused only where one of them has no
/// record, and then with the error of the first such element.
pub proof fn lemma_one_record_per_response(nodes: Seq<XmlNodeView>)
    ensures
        match records(nodes) {
            Ok(rs) => one_record_each(nodes, responses(nodes), rs),
            Err(e) => first_failure(nodes, responses(nodes), e),
        },
{
    lemma_records_from(nodes, 0);
}

/// Once a child of `p` between `from` and `to` cannot be read, whatever the
/// draft, the reading of the children fails.
proof fn lemma_failing_child(
    nodes: Seq<XmlNodeView>,
    p: int,
    from: int,
    to: int,
    d: DraftView,
    j: int,
)
    requires
        from <= j < to,
        nodes[j].parent == Some(p as usize),
        forall|any: DraftView| (#[trigger] with_property(nodes, j, any)) is Err,
    ensures
        with_children(nodes, p, from, to, d) is Err,
    decreases to - from,
{
    if from == j {
        assert(with_property(nodes, j, d) is Err);
    } else if nodes[from].parent == Some(p as usize) {
        match with_property(nodes, from, d) {
            Err(e) => {},
            Ok(next) => lemma_failing_child(nodes, p, from + 1, to, next, j),
        }
    } else {
        lemma_failing_child(nodes, p, from + 1, to, d, j);
    }
}

/// Whether node `j` is a property that the record of the `response` element
/// at `r` is read from: a child of the first `prop` nested in `r`.
pub open spec fn is_property_of(nodes: Seq<XmlNodeView>, r: int, j: int) -> bool {
    match first_named(nodes, "prop"@, r, subtree_end(nodes, r)) {
        Some(p) => p < j < subtree_end(nodes, p) && nodes[j].parent == Some(p as usize),
        None => false,
    }
}

/// A `getcontentlength` whose text is no decimal number is an error, and no
/// record comes out of a `response` element that holds it: its size is never
/// taken for 0.
pub proof fn lemma_length_must_be_decimal(nodes: Seq<XmlNodeView>, r: int, j: int, d: DraftView)
    requires
        named(nodes[j], "getcontentlength"@),
        nodes[j].text matches Some(text) && decimal_u64(text) is None,
    ensures
        with_property(nodes, j, d) == Err::<DraftView, _>(ErrorKind::PropSizeError),
        is_property_of(nodes, r, j) ==> record_of(nodes, r) is Err,
{
    reveal_strlit("getcontentlength");
    reveal_strlit("getlastmodified");
    reveal_strlit("resourcetype");
    assert("getcontentlength"@ != "getlastmodified"@) by {
        assert("getcontentlength"@[3] != "getlastmodified"@[3]);
    }
    assert("getcontentlength"@ != "resourcetype"@) by {
        assert("getcontentlength"@[0] != "resourcetype"@[0]);
    }
    if is_property_of(nodes, r, j) {
        let p = first_named(nodes, "prop"@, r, subtree_end(nodes, r))->Some_0;
        assert forall|any: DraftView| (#[trigger] with_property(nodes, j, any)) is Err by {}
        lemma_failing_child(nodes, p, p + 1, subtree_end(nodes, p), blank_draft(), j);
    }
}

/// A `getlastmodified` whose text is no date is an error, and no record comes
/// out of a `response` element that holds it: its time is never made up.
pub proof fn lemma_date_must_parse(nodes: Seq<XmlNodeView>, r: int, j: int, d: DraftView)
    requires
        named(nodes[j], "getlastmodified"@),
        nodes[j].text matches Some(text) && rfc2822_timestamp(text) is None,
    ensures
        with_property(nodes, j, d) == Err::<DraftView, _>(ErrorKind::DateTimeConversionError),
        is_property_of(nodes, r, j) ==> record_of(nodes, r) is Err,
{
    if is_property_of(nodes, r, j) {
        let p = first_named(nodes, "prop"@, r, subtree_end(nodes, r))->Some_0;
        assert forall|any: DraftView| (#[trigger] with_property(nodes, j, any)) is Err by {}
        lemma_failing_child(nodes, p, p + 1, subtree_end(nodes, p), blank_draft(), j);
    }
}

/// No made-up value leaves the decoding: the type of a record is a file or a
/// collection, and its time, its type and, for a file, its size are what
/// the draft had from the document.
pub proof fn lemma_finished_holds_what_was_read(path: Seq<char>, d: DraftView)
    ensures
        finished(path, d) matches Ok(record) ==> {
            &&& record.path == path
            &&& record.etag == d.etag
            &&& d.resource_type == Some(record.resource_type)
            &&& d.last_modified == Some(record.last_modified)
            &&& (d.size == Some(record.size) || (d.size is None && record.resource_type
                == ResourceType::Collection && record.size == 0))
        },
{
}

/// Whether a draft says nothing of the type, or says file or collection.
pub open spec fn typed_or_blank(d: DraftView) -> bool {
    d.resource_type != Some(ResourceType::Invalid)
}

proof fn lemma_children_keep_the_type(
    nodes: Seq<XmlNodeView>,
    p: int,
    from: int,
    to: int,
    d: DraftView,
)
    requires
        typed_or_blank(d),
    ensures
        with_children(nodes, p, from, to, d) matches Ok(after) ==> typed_or_blank(after),
    decreases to - from,
{
    if from >= to {
    } else if nodes[from].parent == Some(p as usize) {
        match with_property(nodes, from, d) {
            Err(e) => {},
            Ok(next) => lemma_children_keep_the_type(nodes, p, from + 1, to, next),
        }
    } else {
        lemma_children_keep_the_type(nodes, p, from + 1, to, d);
    }
}

/// Every record that is decoded is a file or a collection.
pub proof fn lemma_records_are_typed(nodes: Seq<XmlNodeView>)
    ensures
        records(nodes) matches Ok(rs) ==> forall|k: int|
            0 <= k < rs.len() ==> (#[trigger] rs[k]).resource_type != ResourceType::Invalid,
{
    lemma_one_record_per_response(nodes);
    if records(nodes) is Ok {
        let rs = records(nodes)->Ok_0;
        let at = responses(nodes);
        assert forall|k: int| 0 <= k < rs.len() implies (#[trigger] rs[k]).resource_type
            != ResourceType::Invalid by {
            let r = at[k];
            assert(record_of(nodes, r) == Ok::<_, ErrorKind>(rs[k]));
            let p = first_named(nodes, "prop"@, r, subtree_end(nodes, r))->Some_0;
            lemma_children_keep_the_type(nodes, p, p + 1, subtree_end(nodes, p), blank_draft());
        }
    }
}

/// A `resourcetype` element makes the entry a collection where an element is
/// nested in it, and a file where none is, whatever was read before.
pub proof fn lemma_resourcetype_decides(nodes: Seq<XmlNodeView>, j: int, d: DraftView)
    requires
        named(nodes[j], "resourcetype"@),
    ensures
        with_property(nodes, j, d) == Ok::<_, ErrorKind>(
            DraftView {
                resource_type: Some(
                    if has_element_inside(nodes, j) {
                        ResourceType::Collection
                    } else {
                        ResourceType::File
                    },
                ),
                ..d
            },
        ),
{
    reveal_strlit("getlastmodified");
    reveal_strlit("resourcetype");
    assert("resourcetype"@ != "getlastmodified"@) by {
        assert("resourcetype"@[0] != "getlastmodified"@[0]);
    }
}

} // verus!
