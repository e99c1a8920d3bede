use genshin_dictionary::dictionary::{
    entry_of, remove_tags, render_ruby, to_ime_dictionary_entry, IMEDictionaryEntry,
    OtherLanguages, Page, PageText, Revision,
};
use genshin_dictionary::ext::NodeExt;
use genshin_dictionary::mediawiki::{parse_mediawiki, Node};

fn nodes(s: &str) -> Vec<Node<'static>> {
    parse_mediawiki(s).to_static()
}

fn other(ja: Option<&str>, ja_rm: Option<&str>) -> OtherLanguages {
    OtherLanguages {
        ja: ja.map(nodes),
        ja_rm: ja_rm.map(nodes),
    }
}

fn pair(entry: Option<IMEDictionaryEntry>) -> Option<(String, String)> {
    entry.map(|e| (e.word, e.yomi))
}

fn word_and_yomi(word: &str, yomi: &str) -> Option<(String, String)> {
    Some((word.to_string(), yomi.to_string()))
}

#[test]
fn remove_tags_cuts_at_a_reference() {
    assert_eq!(remove_tags("モンド<ref>note</ref>"), "モンド");
    assert_eq!(remove_tags("a<ref name=x/>b<ref>c"), "a");
    assert_eq!(remove_tags("<ref>"), "");
}

#[test]
fn remove_tags_cuts_at_a_comment() {
    assert_eq!(remove_tags("モンド<!-- note -->"), "モンド");
    assert_eq!(remove_tags("a<!--b--><ref>c"), "a");
    assert_eq!(remove_tags("a<ref>b<!--c"), "a");
}

#[test]
fn remove_tags_keeps_text_without_tags() {
    assert_eq!(remove_tags("モンド"), "モンド");
    assert_eq!(remove_tags(""), "");
    assert_eq!(remove_tags("a<re f><! --b"), "a<re f><! --b");
    assert_eq!(remove_tags("a<b>c</b>"), "a<b>c</b>");
}

#[test]
fn render_ruby_takes_every_second_argument() {
    assert_eq!(render_ruby(&nodes("{{Rubi|璃|り|月|ゆえ}}")), "璃月");
    assert_eq!(render_ruby(&nodes("{{Rubi|璃|り|月}}")), "璃月");
    assert_eq!(render_ruby(&nodes("{{Rubi|璃}}")), "璃");
    assert_eq!(render_ruby(&nodes("{{Rubi}}")), "");
    assert_eq!(render_ruby(&nodes("a{{Rubi|b|c}}d")), "abd");
}

#[test]
fn render_ruby_reads_nested_templates() {
    assert_eq!(
        render_ruby(&nodes("{{Rubi|a{{Rubi|b|x}}c|y|{{Other|z}}d}}")),
        "abcd"
    );
}

#[test]
fn render_ruby_leaves_other_templates_out() {
    assert_eq!(render_ruby(&nodes("a{{Color|b}}c{{}}d")), "acd");
    assert_eq!(render_ruby(&nodes("{{rubi|a|b}}")), "");
    assert_eq!(render_ruby(&nodes("")), "");
}

#[test]
fn entry_pairs_the_word_with_its_reading() {
    assert_eq!(
        pair(entry_of(&other(Some("モンド"), Some("Mondo")))),
        word_and_yomi("モンド", "もんど")
    );
    assert_eq!(
        pair(entry_of(&other(Some(" 稲妻 \n"), Some(" Inazuma ")))),
        word_and_yomi("稲妻", "いなずま")
    );
}

#[test]
fn entry_writes_the_long_vowel_mark_only_for_words_that_hold_it() {
    assert_eq!(
        pair(entry_of(&other(Some("バーバラ"), Some("Baabara")))),
        word_and_yomi("バーバラ", "ばーばら")
    );
    assert_eq!(
        pair(entry_of(&other(Some("ばあばら"), Some("Baabara")))),
        word_and_yomi("ばあばら", "ばあばら")
    );
}

#[test]
fn entry_spells_liyue() {
    assert_eq!(
        pair(entry_of(&other(Some("{{Rubi|璃|り|月|ゆえ}}"), Some("Riiwe")))),
        word_and_yomi("璃月", "りーゆえ")
    );
    assert_eq!(
        pair(entry_of(&other(Some("璃月港"), Some("Riiwekou")))),
        word_and_yomi("璃月港", "りーゆえこう")
    );
}

#[test]
fn entry_leaves_references_and_comments_out() {
    assert_eq!(
        pair(entry_of(&other(
            Some("モンド<ref>x</ref>"),
            Some("Mondo <!-- y -->")
        ))),
        word_and_yomi("モンド", "もんど")
    );
}

#[test]
fn no_entry_without_both_names() {
    assert_eq!(pair(entry_of(&other(None, Some("Mondo")))), None);
    assert_eq!(pair(entry_of(&other(Some("モンド"), None))), None);
    assert_eq!(pair(entry_of(&other(None, None))), None);
    assert_eq!(pair(entry_of(&OtherLanguages::default())), None);
}

#[test]
fn no_entry_for_an_empty_name() {
    assert_eq!(pair(entry_of(&other(Some(""), Some("Mondo")))), None);
    assert_eq!(pair(entry_of(&other(Some("モンド"), Some("  ")))), None);
    assert_eq!(pair(entry_of(&other(Some("<ref>x"), Some("Mondo")))), None);
    assert_eq!(pair(entry_of(&other(Some("モンド"), Some("{{x}}")))), None);
}

#[test]
fn an_entry_may_have_an_empty_reading() {
    assert_eq!(
        pair(entry_of(&other(Some("モンド"), Some("123")))),
        word_and_yomi("モンド", "")
    );
}

#[test]
fn page_gives_its_entries_in_order() {
    let page = Page {
        revision: Revision {
            text: PageText {
                other_languages: vec![
                    other(Some("モンド"), Some("Mondo")),
                    other(None, Some("x")),
                    other(Some("璃月"), Some("Riiwe")),
                ],
            },
        },
    };
    let found: Vec<(String, String)> = to_ime_dictionary_entry(&page)
        .into_iter()
        .map(|e| (e.word, e.yomi))
        .collect();
    assert_eq!(
        found,
        vec![
            ("モンド".to_string(), "もんど".to_string()),
            ("璃月".to_string(), "りーゆえ".to_string()),
        ]
    );
}

#[test]
fn default_page_gives_no_entry() {
    assert!(to_ime_dictionary_entry(&Page::default()).is_empty());
    assert!(PageText::default().other_languages.is_empty());
    assert!(Revision::default().text.other_languages.is_empty());
}
