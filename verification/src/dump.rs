//! Reading the pages of a wiki's XML dump.
//!
//! The XML itself is read by `quick_xml`. What this module decides is which
//! of the reader's events open and close a page, which text belongs to a
//! page's revision, and which templates in that text record the names that a
//! term has in other languages.

use vstd::prelude::*;
use vstd::string::StringSliceAdditionalSpecFns;
use quick_xml::Reader;
use crate::dictionary::{OtherLanguages, OtherLanguagesView, Page};
use crate::ext::{detach_nodes, text_of};
use crate::mediawiki::{
    document, lemma_argument_view, lemma_template_view, parse_mediawiki, ArgumentView, Node,
    NodeView, TemplateArgument,
};
use crate::text::{chars_of, find, occurs, same_text};

verus! {

broadcast use vstd::std_specs::vec::group_vec_axioms;

/// `quick_xml::Reader`, of which nothing but its pending events is known
/// here.
#[verifier::external_type_specification]
#[verifier::external_body]
#[verifier::reject_recursive_types(R)]
pub struct ExReader<R>(Reader<R>);

/// `quick_xml::Error`, carried through unread.
#[verifier::external_type_specification]
#[verifier::external_body]
pub struct ExXmlError(quick_xml::Error);

/// One event of the XML reader, as far as pages are read from it.
#[derive(Debug)]
pub enum XmlEvent {
    /// An opening tag, with its name as written.
    Start(Vec<u8>),
    /// A closing tag, with its name as written.
    End(Vec<u8>),
    /// Character data between tags, unescaped, or the reason why it could
    /// not be unescaped.
    Text(Result<String, quick_xml::Error>),
    /// The end of the input.
    Eof,
    /// Any other event.
    Other,
}

/// Why a page could not be read.
#[derive(Debug)]
pub enum DumpError {
    /// The reader could not read the next event.
    Read(quick_xml::Error),
    /// The text of a revision could not be unescaped.
    Unescape(quick_xml::Error),
}

/// What a new reader over the bytes `input` gives, call by call, from its
/// first event up to the end of the input. A failure to read is an item of
/// its own; `Eof` is none.
pub uninterp spec fn xml_events(input: Seq<u8>) -> Seq<Result<XmlEvent, quick_xml::Error>>;

/// What the reader `reader` has yet to give, call by call, up to the end
/// of the input. A failure to read is an item of its own; `Eof` is none.
pub uninterp spec fn pending(reader: Reader<&[u8]>) -> Seq<Result<XmlEvent, quick_xml::Error>>;

/// Whether `r` is the event that marks the end of the input.
pub open spec fn is_eof(r: Result<XmlEvent, quick_xml::Error>) -> bool {
    r is Ok && r->Ok_0 is Eof
}

/// Calls `quick_xml::Reader::from_reader`.
///
/// Trusted: what the new reader gives depends on the bytes of the input
/// alone.
#[verifier::external_body]
fn new_reader<'a>(input: &'a [u8]) -> (reader: Reader<&'a [u8]>)
    ensures
        pending(reader) == xml_events(input@),
{
    Reader::from_reader(input)
}

/// Calls `quick_xml::Reader::read_event` and turns the event into an
/// [`XmlEvent`]: a tag's name is what `BytesStart::name` or `BytesEnd::name`
/// gives, the text what `BytesText::unescape` gives.
///
/// Trusted: the call gives the first of the pending events and leaves the
/// others pending. With no event pending it gives `Eof` and leaves none
/// pending: at the end of the input the reader stays there. What is pending
/// is finite, since every event takes up input.
#[verifier::external_body]
fn read_event(reader: &mut Reader<&[u8]>) -> (r: Result<XmlEvent, quick_xml::Error>)
    ensures
        pending(*old(reader)).len() == 0 ==> is_eof(r) && pending(*final(reader)).len() == 0,
        pending(*old(reader)).len() > 0 ==> r == pending(*old(reader))[0] && !is_eof(r)
            && pending(*final(reader)) == pending(*old(reader)).drop_first(),
{
    match reader.read_event() {
        Ok(quick_xml::events::Event::Start(e)) => Ok(XmlEvent::Start(e.name().0.to_vec())),
        Ok(quick_xml::events::Event::End(e)) => Ok(XmlEvent::End(e.name().0.to_vec())),
        Ok(quick_xml::events::Event::Text(e)) => Ok(
            XmlEvent::Text(e.unescape().map(|text| text.into_owned())),
        ),
        Ok(quick_xml::events::Event::Eof) => Ok(XmlEvent::Eof),
        Ok(_) => Ok(XmlEvent::Other),
        Err(e) => Err(e),
    }
}

/// Where in a page the reader stands.
pub struct Flags {
    pub in_page: bool,
    pub in_revision: bool,
    pub in_text: bool,
}

/// The name of the tag `tag` as the reader gives it.
pub open spec fn tag_name(tag: &str) -> Seq<u8> {
    tag.spec_bytes()
}

/// The flags behind an opening tag with the name `name`.
pub open spec fn after_start(flags: Flags, name: Seq<u8>) -> Flags {
    if name == tag_name("page") {
        Flags { in_page: true, ..flags }
    } else if flags.in_page && name == tag_name("revision") {
        Flags { in_revision: true, ..flags }
    } else if flags.in_page && flags.in_revision && name == tag_name("text") {
        Flags { in_text: true, ..flags }
    } else {
        flags
    }
}

/// Whether a closing tag with the name `name` ends the text or the
/// revision that the reader stands in.
pub open spec fn ends_text(flags: Flags, name: Seq<u8>) -> bool {
    flags.in_page && flags.in_revision && ((flags.in_text && name == tag_name("text")) || name
        == tag_name("revision"))
}

/// Whether a closing tag with the name `name` ends the page.
pub open spec fn ends_page(flags: Flags, name: Seq<u8>) -> bool {
    !ends_text(flags, name) && flags.in_page && name == tag_name("page")
}

/// The flags behind a closing tag with the name `name` that does not end
/// the page.
pub open spec fn after_end(flags: Flags, name: Seq<u8>) -> Flags {
    if ends_text(flags, name) {
        Flags { in_text: false, ..flags }
    } else {
        flags
    }
}

/// The value of the first argument of `arguments` with the name `key`.
pub open spec fn argument_named(arguments: Seq<ArgumentView>, key: Seq<char>) -> Option<
    Seq<NodeView>,
>
    decreases arguments.len(),
{
    if arguments.len() == 0 {
        None
    } else if arguments[0].name == Some(key) {
        Some(arguments[0].value)
    } else {
        argument_named(arguments.drop_first(), key)
    }
}

/// The records of names in other languages among the nodes `nodes`: one
/// for each "Other Languages" template, nested ones included, in
/// pre-order.
pub open spec fn records(nodes: Seq<NodeView>) -> Seq<OtherLanguagesView>
    decreases nodes, 0int,
{
    if nodes.len() == 0 {
        seq![]
    } else {
        records(nodes.drop_last()) + records_of(nodes.last())
    }
}

/// The records that `node` and the nodes below it hold.
pub open spec fn records_of(node: NodeView) -> Seq<OtherLanguagesView>
    decreases node, 1int,
{
    match node {
        NodeView::Template { name, arguments } => (if name == "Other Languages"@ {
            seq![
                OtherLanguagesView {
                    ja: argument_named(arguments, "ja"@),
                    ja_rm: argument_named(arguments, "ja_rm"@),
                },
            ]
        } else {
            seq![]
        }) + records_below(arguments),
        _ => seq![],
    }
}

/// The records that the values of `arguments` hold.
pub open spec fn records_below(arguments: Seq<ArgumentView>) -> Seq<OtherLanguagesView>
    decreases arguments, 0int,
{
    if arguments.len() == 0 {
        seq![]
    } else {
        records_below(arguments.drop_last()) + records(arguments.last().value)
    }
}

/// The records that a revision's text holds. Text without the words
/// "Other Languages" is not parsed and gives none.
pub open spec fn gathered(text: Seq<char>) -> Seq<OtherLanguagesView> {
    if occurs(text, "Other Languages"@) {
        records(document(text))
    } else {
        seq![]
    }
}

/// How reading a page ends.
pub enum Scanned {
    /// The page's closing tag was read. These records were found in it.
    Page(Seq<OtherLanguagesView>),
    /// Reading failed.
    Failed(DumpError),
    /// The input ended.
    Finished,
}

/// With one more event read in front.
pub open spec fn one_more(scanned: (Scanned, nat)) -> (Scanned, nat) {
    (scanned.0, scanned.1 + 1)
}

/// How reading a page from the events `events` ends, and the number of
/// events read, for a reader that stands at `flags` and has found `found`
/// so far.
pub open spec fn scan(
    events: Seq<Result<XmlEvent, quick_xml::Error>>,
    flags: Flags,
    found: Seq<OtherLanguagesView>,
) -> (Scanned, nat)
    decreases events.len(),
{
    if events.len() == 0 {
        (Scanned::Finished, 0)
    } else {
        let rest = events.drop_first();
        match events[0] {
            Err(e) => (Scanned::Failed(DumpError::Read(e)), 1),
            Ok(XmlEvent::Start(name)) => one_more(scan(rest, after_start(flags, name@), found)),
            Ok(XmlEvent::End(name)) => if ends_page(flags, name@) {
                (Scanned::Page(found), 1)
            } else {
                one_more(scan(rest, after_end(flags, name@), found))
            },
            Ok(XmlEvent::Text(text)) => if flags.in_text {
                match text {
                    Err(e) => (Scanned::Failed(DumpError::Unescape(e)), 1),
                    Ok(text) => one_more(scan(rest, flags, found + gathered(text@))),
                }
            } else {
                one_more(scan(rest, flags, found))
            },
            Ok(XmlEvent::Eof) => (Scanned::Finished, 1),
            Ok(XmlEvent::Other) => one_more(scan(rest, flags, found)),
        }
    }
}

/// How reading the next page from the events `events` ends, and the number
/// of events read.
pub open spec fn next_page(events: Seq<Result<XmlEvent, quick_xml::Error>>) -> (Scanned, nat) {
    scan(events, Flags { in_page: false, in_revision: false, in_text: false }, seq![])
}

/// Whether two byte strings are equal.
fn same_bytes(a: &[u8], b: &[u8]) -> (r: bool)
    ensures
        r == (a@ == b@),
{
    if a.len() != b.len() {
        return false;
    }
    let mut i: usize = 0;
    while i < a.len()
        invariant
            a@.len() == b@.len(),
            i <= a@.len(),
            a@.take(i as int) == b@.take(i as int),
        decreases a@.len() - i,
    {
        if a[i] != b[i] {
            return false;
        }
        assert(a@.take(i + 1) == a@.take(i as int).push(a@[i as int]));
        assert(b@.take(i + 1) == b@.take(i as int).push(b@[i as int]));
        i += 1;
    }
    assert(a@.take(i as int) == a@);
    assert(b@.take(i as int) == b@);
    true
}

/// Whether `name` is the name of the tag `tag`.
fn is_tag(name: &Vec<u8>, tag: &str) -> (r: bool)
    ensures
        r == (name@ == tag_name(tag)),
{
    same_bytes(name.as_slice(), tag.as_bytes())
}

/// A detached copy of the value of the first argument named `key`.
fn value_named(arguments: &Vec<TemplateArgument>, key: &str) -> (r: Option<Vec<Node<'static>>>)
    ensures
        r.deep_view() == argument_named(arguments.deep_view(), key@),
{
    let ghost all = arguments.deep_view();
    let mut k: usize = 0;
    assert(all.skip(0) == all);
    while k < arguments.len()
        invariant
            all == arguments.deep_view(),
            k <= arguments@.len(),
            argument_named(all, key@) == argument_named(all.skip(k as int), key@),
        decreases arguments@.len() - k,
    {
        let argument = &arguments[k];
        proof {
            lemma_argument_view(*argument);
            assert(all.skip(k as int)[0] == argument@);
            assert(all.skip(k as int).drop_first() == all.skip(k + 1));
        }
        let found = match &argument.name {
            Some(name) => same_text(text_of(name), key),
            None => false,
        };
        if found {
            let value = argument.value.as_slice();
            assert(value.deep_view() == argument.value.deep_view());
            return Some(detach_nodes(value));
        }
        k += 1;
    }
    None
}

/// Appends to `found` the records that `nodes` hold.
pub fn gather(nodes: &[Node], found: &mut Vec<OtherLanguages>)
    ensures
        final(found).deep_view() == old(found).deep_view() + records(nodes.deep_view()),
    decreases nodes@, 0int,
{
    let ghost all = nodes.deep_view();
    let mut k: usize = 0;
    assert(all.take(0) == Seq::<NodeView>::empty());
    assert(found.deep_view() + Seq::<OtherLanguagesView>::empty() == found.deep_view());
    while k < nodes.len()
        invariant
            all == nodes.deep_view(),
            k <= nodes@.len(),
            found.deep_view() == old(found).deep_view() + records(all.take(k as int)),
        decreases nodes@.len() - k,
    {
        assert(all.take(k + 1).drop_last() == all.take(k as int));
        assert(all.take(k + 1).last() == nodes@[k as int]@);
        gather_node(&nodes[k], found);
        assert(found.deep_view() == old(found).deep_view() + (records(all.take(k as int))
            + records_of(nodes@[k as int]@)));
        k += 1;
    }
    assert(all.take(k as int) == all);
}

/// Appends to `found` the records that `node` and the nodes below it
/// hold.
fn gather_node(node: &Node, found: &mut Vec<OtherLanguages>)
    ensures
        final(found).deep_view() == old(found).deep_view() + records_of(node@),
    decreases node, 1int,
{
    match node {
        Node::Template { name, arguments } => {
            proof {
                lemma_template_view(*node);
            }
            let ghost before = found.deep_view();
            if same_text(text_of(name), "Other Languages") {
                let other = OtherLanguages {
                    ja: value_named(arguments, "ja"),
                    ja_rm: value_named(arguments, "ja_rm"),
                };
                found.push(other);
                assert(found.deep_view() == before.push(other@));
            }
            gather_arguments(arguments, found);
            assert(found.deep_view() == before + records_of(node@));
        },
        _ => {
            assert(found.deep_view() + Seq::<OtherLanguagesView>::empty() == found.deep_view());
        },
    }
}

/// Appends to `found` the records that the values of `arguments` hold.
fn gather_arguments(arguments: &Vec<TemplateArgument>, found: &mut Vec<OtherLanguages>)
    ensures
        final(found).deep_view() == old(found).deep_view() + records_below(
            arguments.deep_view(),
        ),
    decreases arguments, 0int,
{
    let ghost all = arguments.deep_view();
    let mut k: usize = 0;
    assert(all.take(0) == Seq::<ArgumentView>::empty());
    assert(found.deep_view() + Seq::<OtherLanguagesView>::empty() == found.deep_view());
    while k < arguments.len()
        invariant
            all == arguments.deep_view(),
            k <= arguments@.len(),
            found.deep_view() == old(found).deep_view() + records_below(
                all.take(k as int),
            ),
        decreases arguments@.len() - k,
    {
        let argument = &arguments[k];
        let value = argument.value.as_slice();
        proof {
            lemma_argument_view(*argument);
            assert(value.deep_view() == all[k as int].value);
            assert(all.take(k + 1).drop_last() == all.take(k as int));
            assert(all.take(k + 1).last() == all[k as int]);
        }
        gather(value, found);
        assert(found.deep_view() == old(found).deep_view() + (records_below(
            all.take(k as int),
        ) + records(all[k as int].value)));
        k += 1;
    }
    assert(all.take(k as int) == all);
}

/// Appends to `found` the records that a revision's text holds.
pub fn gather_text(text: &str, found: &mut Vec<OtherLanguages>)
    ensures
        final(found).deep_view() == old(found).deep_view() + gathered(text@),
{
    let chars = chars_of(text);
    let words = chars_of("Other Languages");
    if find(chars.as_slice(), words.as_slice()).is_some() {
        let nodes = parse_mediawiki(text);
        let nodes = nodes.as_slice();
        gather(nodes, found);
    } else {
        assert(found.deep_view() + Seq::<OtherLanguagesView>::empty() == found.deep_view());
    }
}

/// The pages of a dump, read one after the other.
pub struct PagesIter<'a> {
    reader: Reader<&'a [u8]>,
}

impl<'a> PagesIter<'a> {
    /// What the reader will still give.
    pub closed spec fn events(&self) -> Seq<Result<XmlEvent, quick_xml::Error>> {
        pending(self.reader)
    }

    /// Reads on to the end of the next page.
    ///
    /// Gives the page with the records found in its revision's text,
    /// the error that stopped the reading, or `None` at the end of the
    /// input.
    pub fn next(&mut self) -> (r: Option<Result<Page, DumpError>>)
        ensures
            final(self).events() == old(self).events().skip(
                next_page(old(self).events()).1 as int,
            ),
            match next_page(old(self).events()).0 {
                Scanned::Page(found) => r matches Some(Ok(page)) && page@ == found,
                Scanned::Failed(error) => r == Some(Err::<Page, DumpError>(error)),
                Scanned::Finished => r is None,
            },
    {
        let ghost all = self.events();
        let ghost goal = next_page(all);
        let mut in_page = false;
        let mut in_revision = false;
        let mut in_text = false;
        let mut page = Page::default();
        let ghost mut read: nat = 0;
        assert(all.skip(0) == all);
        assert(page@ == Seq::<OtherLanguagesView>::empty());
        loop
            invariant
                all == old(self).events(),
                goal == next_page(all),
                read <= all.len(),
                self.events() == all.skip(read as int),
                goal.0 == scan(self.events(), Flags { in_page, in_revision, in_text }, page@).0,
                goal.1 == read + scan(
                    self.events(),
                    Flags { in_page, in_revision, in_text },
                    page@,
                ).1,
            decreases self.events().len(),
        {
            let ghost flags = Flags { in_page, in_revision, in_text };
            let ghost rest = self.events();
            proof {
                if rest.len() > 0 {
                    assert(rest.drop_first() == all.skip(read as int + 1));
                } else {
                    assert(all.skip(read as int).skip(0) == all.skip(read as int));
                }
            }
            let event = read_event(&mut self.reader);
            proof {
                if rest.len() > 0 {
                    read = read + 1;
                }
            }
            match event {
                Err(e) => {
                    return Some(Err(DumpError::Read(e)));
                },
                Ok(XmlEvent::Start(name)) => {
                    if is_tag(&name, "page") {
                        in_page = true;
                    } else if in_page && is_tag(&name, "revision") {
                        in_revision = true;
                    } else if in_page && in_revision && is_tag(&name, "text") {
                        in_text = true;
                    }
                },
                Ok(XmlEvent::End(name)) => {
                    if in_page && in_revision && in_text && is_tag(&name, "text") {
                        in_text = false;
                    } else if in_page && in_revision && is_tag(&name, "revision") {
                        in_text = false;
                    } else if in_page && is_tag(&name, "page") {
                        return Some(Ok(page));
                    }
                },
                Ok(XmlEvent::Text(text)) => {
                    if in_text {
                        match text {
                            Err(e) => {
                                return Some(Err(DumpError::Unescape(e)));
                            },
                            Ok(text) => {
                                gather_text(text.as_str(), &mut page.revision.text.other_languages);
                            },
                        }
                    }
                },
                Ok(XmlEvent::Eof) => {
                    return None;
                },
                Ok(XmlEvent::Other) => {},
            }
        }
    }
}

/// The pages of the dump `input`.
pub fn parse_database_dump(input: &[u8]) -> (pages: PagesIter<'_>)
    ensures
        pages.events() == xml_events(input@),
{
    PagesIter { reader: new_reader(input) }
}

} // verus!
