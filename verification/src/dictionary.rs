//! Dictionary entries from the Japanese names that a page records.
//!
//! A page lists, per "Other Languages" template, the Japanese spelling of
//! a term and its romanisation. An entry pairs the spelling with its
//! reading in hiragana.

use vstd::prelude::*;
use vstd::string::StringExecFns;
use crate::ext::text_of;
use crate::mediawiki::{lemma_template_view, ArgumentView, Node, NodeView, TemplateArgument};
use crate::romaji::{hiragana, romaji_to_hiragana, LONG_VOWEL_MARK};
use crate::text::{
    before, chars_of, contains_char, find, first_match, replace, replaced, same_text, slice, trim,
    trimmed,
};

verus! {

broadcast use vstd::std_specs::vec::group_vec_axioms;

/// The names of a term in other languages, as one "Other Languages"
/// template records them.
#[derive(Debug)]
pub struct OtherLanguages {
    /// The Japanese spelling.
    pub ja: Option<Vec<Node<'static>>>,
    /// The romanised Japanese reading.
    pub ja_rm: Option<Vec<Node<'static>>>,
}

/// The mathematical value of an [`OtherLanguages`].
pub struct OtherLanguagesView {
    pub ja: Option<Seq<NodeView>>,
    pub ja_rm: Option<Seq<NodeView>>,
}

impl View for OtherLanguages {
    type V = OtherLanguagesView;

    open spec fn view(&self) -> OtherLanguagesView {
        OtherLanguagesView { ja: self.ja.deep_view(), ja_rm: self.ja_rm.deep_view() }
    }
}

impl DeepView for OtherLanguages {
    type V = OtherLanguagesView;

    open spec fn deep_view(&self) -> OtherLanguagesView {
        self.view()
    }
}

/// The text of a page's revision, as far as the dictionary needs it.
#[derive(Debug)]
pub struct PageText {
    pub other_languages: Vec<OtherLanguages>,
}

/// A revision of a page.
#[derive(Debug)]
pub struct Revision {
    pub text: PageText,
}

/// A page of the dump.
#[derive(Debug)]
pub struct Page {
    pub revision: Revision,
}

impl View for Page {
    type V = Seq<OtherLanguagesView>;

    /// The records of the page, in order.
    open spec fn view(&self) -> Seq<OtherLanguagesView> {
        self.revision.text.other_languages.deep_view()
    }
}

impl Default for OtherLanguages {
    fn default() -> (r: Self)
        ensures
            r.ja is None,
            r.ja_rm is None,
    {
        OtherLanguages { ja: None, ja_rm: None }
    }
}

impl Default for PageText {
    fn default() -> (r: Self)
        ensures
            r.other_languages@.len() == 0,
    {
        PageText { other_languages: Vec::new() }
    }
}

impl Default for Revision {
    fn default() -> (r: Self)
        ensures
            r.text.other_languages@.len() == 0,
    {
        Revision { text: PageText::default() }
    }
}

impl Default for Page {
    fn default() -> (r: Self)
        ensures
            r.revision.text.other_languages@.len() == 0,
    {
        Page { revision: Revision::default() }
    }
}

/// One line of the dictionary: a word and its reading.
#[derive(Debug)]
pub struct IMEDictionaryEntry {
    pub word: String,
    pub yomi: String,
}

/// The mathematical value of an [`IMEDictionaryEntry`].
pub struct EntryView {
    pub word: Seq<char>,
    pub yomi: Seq<char>,
}

impl View for IMEDictionaryEntry {
    type V = EntryView;

    open spec fn view(&self) -> EntryView {
        EntryView { word: self.word@, yomi: self.yomi@ }
    }
}

impl DeepView for IMEDictionaryEntry {
    type V = EntryView;

    open spec fn deep_view(&self) -> EntryView {
        self.view()
    }
}

/// `s` cut in front of its first `<ref`, and what is left cut in front of
/// its first `<!--`.
pub open spec fn without_tags(s: Seq<char>) -> Seq<char> {
    before(before(s, "<ref"@), "<!--"@)
}

/// The text of `nodes` where a "Rubi" template stands for its base text
/// and every other template for nothing.
pub open spec fn ruby_text(nodes: Seq<NodeView>) -> Seq<char>
    decreases nodes, 0int,
{
    if nodes.len() == 0 {
        seq![]
    } else {
        ruby_text(nodes.drop_last()) + (match nodes.last() {
            NodeView::Text(text) => text,
            NodeView::Template { name, arguments } => if name == "Rubi"@ {
                ruby_base(arguments, 0)
            } else {
                seq![]
            },
            NodeView::Error => seq![],
        })
    }
}

/// The base text of a "Rubi" template from argument `i` on: the text of
/// every second argument. The arguments in between hold the annotations.
pub open spec fn ruby_base(arguments: Seq<ArgumentView>, i: int) -> Seq<char>
    decreases arguments,
        (if i < arguments.len() {
            arguments.len() - i
        } else {
            0
        }),
{
    if 0 <= i < arguments.len() {
        ruby_text(arguments[i].value) + ruby_base(arguments, i + 2)
    } else {
        seq![]
    }
}

/// The entry for a record: the spelling and the reading
/// without tags and outer whitespace, the reading turned into hiragana.
/// No entry where one of the two is missing or empty.
pub open spec fn entry(other: OtherLanguagesView) -> Option<EntryView> {
    if other.ja is Some && other.ja_rm is Some {
        let word = trimmed(without_tags(ruby_text(other.ja->0)));
        let romaji = trimmed(without_tags(ruby_text(other.ja_rm->0)));
        if word.len() == 0 || romaji.len() == 0 {
            None
        } else {
            Some(
                EntryView {
                    word,
                    yomi: replaced(
                        hiragana(romaji, word.contains(LONG_VOWEL_MARK)),
                        "りいうぇ"@,
                        "りーゆえ"@,
                    ),
                },
            )
        }
    } else {
        None
    }
}

/// The entries for the records `others`, in order.
pub open spec fn entries(others: Seq<OtherLanguagesView>) -> Seq<EntryView>
    decreases others.len(),
{
    if others.len() == 0 {
        seq![]
    } else {
        let rest = entries(others.drop_last());
        match entry(others.last()) {
            Some(e) => rest.push(e),
            None => rest,
        }
    }
}

/// `s` cut in front of the first occurrence of `pat`.
fn cut<'a>(s: &'a str, pat: &str) -> (r: &'a str)
    ensures
        r@ == before(s@, pat@),
{
    let text = chars_of(s);
    let pattern = chars_of(pat);
    match find(text.as_slice(), pattern.as_slice()) {
        Some(i) => {
            proof {
                let j = choose|j: int| first_match(s@, pat@, j);
                assert(first_match(s@, pat@, j));
                assert(j == i);
            }
            slice(s, 0, i)
        },
        None => {
            assert(!(exists|j: int| first_match(s@, pat@, j)));
            s
        },
    }
}

/// Cuts a reference and a comment off the end of `s`.
pub fn remove_tags(s: &str) -> (r: &str)
    ensures
        r@ == without_tags(s@),
{
    cut(cut(s, "<ref"), "<!--")
}

/// Renders `nodes` to text, a "Rubi" template as its base text and any
/// other template as nothing.
pub fn render_ruby(nodes: &[Node]) -> (s: String)
    ensures
        s@ == ruby_text(nodes.deep_view()),
    decreases nodes@, 0int,
{
    let ghost all = nodes.deep_view();
    let mut s = String::new();
    let mut k: usize = 0;
    assert(all.take(0) == Seq::<NodeView>::empty());
    while k < nodes.len()
        invariant
            all == nodes.deep_view(),
            k <= nodes@.len(),
            s@ == ruby_text(all.take(k as int)),
        decreases nodes@.len() - k,
    {
        assert(all.take(k + 1).drop_last() == all.take(k as int));
        assert(all.take(k + 1).last() == nodes@[k as int]@);
        match &nodes[k] {
            Node::Text(text) => {
                s.append(text_of(text));
            },
            Node::Template { name, arguments } => {
                proof {
                    lemma_template_view(nodes@[k as int]);
                }
                if same_text(text_of(name), "Rubi") {
                    let base = ruby_base_text(arguments);
                    s.append(base.as_str());
                } else {
                    assert(s@ + Seq::<char>::empty() == s@);
                }
            },
            Node::Error => {
                assert(s@ + Seq::<char>::empty() == s@);
            },
        }
        k += 1;
    }
    assert(all.take(k as int) == all);
    s
}

/// The base text of a "Rubi" template with the arguments `arguments`.
fn ruby_base_text(arguments: &Vec<TemplateArgument>) -> (s: String)
    ensures
        s@ == ruby_base(arguments.deep_view(), 0),
    decreases arguments, 1int,
{
    let ghost all = arguments.deep_view();
    let n: usize = arguments.len();
    let mut s = String::new();
    let mut i: usize = 0;
    assert(s@ + ruby_base(all, 0) == ruby_base(all, 0));
    while i < n
        invariant
            all == arguments.deep_view(),
            n == arguments@.len(),
            ruby_base(all, 0) == s@ + ruby_base(all, i as int),
        decreases n - i,
    {
        let argument = &arguments[i];
        let value = argument.value.as_slice();
        proof {
            crate::mediawiki::lemma_argument_view(*argument);
            assert(value.deep_view() == all[i as int].value);
        }
        let ghost head = s@;
        let piece = render_ruby(value);
        s.append(piece.as_str());
        if n - i <= 2 {
            assert(ruby_base(all, i + 2) == Seq::<char>::empty());
            assert(head + (piece@ + Seq::<char>::empty()) == s@);
            assert(ruby_base(all, n as int) == Seq::<char>::empty());
            assert(s@ + Seq::<char>::empty() == s@);
            i = n;
        } else {
            assert(head + (piece@ + ruby_base(all, i + 2)) == s@ + ruby_base(all, i + 2));
            i += 2;
        }
    }
    assert(s@ + Seq::<char>::empty() == s@);
    s
}

/// The dictionary entry for one record, if it gives one.
pub fn entry_of(other: &OtherLanguages) -> (r: Option<IMEDictionaryEntry>)
    ensures
        r.deep_view() == entry(other@),
{
    let ja = match &other.ja {
        Some(nodes) => {
            let nodes = nodes.as_slice();
            assert(nodes.deep_view() == other.ja->0.deep_view());
            render_ruby(nodes)
        },
        None => {
            return None;
        },
    };
    let ja_rm = match &other.ja_rm {
        Some(nodes) => {
            let nodes = nodes.as_slice();
            assert(nodes.deep_view() == other.ja_rm->0.deep_view());
            render_ruby(nodes)
        },
        None => {
            return None;
        },
    };
    let word = trim(remove_tags(ja.as_str()));
    let romaji = trim(remove_tags(ja_rm.as_str()));
    if word.is_empty() || romaji.is_empty() {
        return None;
    }
    let kana = romaji_to_hiragana(romaji, contains_char(word, LONG_VOWEL_MARK));
    let yomi = replace(kana.as_str(), "りいうぇ", "りーゆえ");
    Some(IMEDictionaryEntry { word: String::from_str(word), yomi })
}

/// The dictionary entries that the page `page` gives, in the order of its
/// records.
pub fn to_ime_dictionary_entry(page: &Page) -> (r: Vec<IMEDictionaryEntry>)
    ensures
        r.deep_view() == entries(page@),
{
    let others = &page.revision.text.other_languages;
    let ghost all = others.deep_view();
    let mut found: Vec<IMEDictionaryEntry> = Vec::new();
    let mut k: usize = 0;
    assert(all.take(0) == Seq::<OtherLanguagesView>::empty());
    while k < others.len()
        invariant
            all == others.deep_view(),
            k <= others@.len(),
            found.deep_view() == entries(all.take(k as int)),
        decreases others@.len() - k,
    {
        assert(all.take(k + 1).drop_last() == all.take(k as int));
        assert(all.take(k + 1).last() == others@[k as int]@);
        let ghost before = found.deep_view();
        match entry_of(&others[k]) {
            Some(e) => {
                found.push(e);
                assert(found.deep_view() == before.push(e@));
            },
            None => {},
        }
        k += 1;
    }
    assert(all.take(k as int) == all);
    found
}

} // verus!
