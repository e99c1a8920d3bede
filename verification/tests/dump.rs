use genshin_dictionary::dictionary::{to_ime_dictionary_entry, OtherLanguages};
use genshin_dictionary::dump::{gather, gather_text, parse_database_dump, DumpError};
use genshin_dictionary::mediawiki::{parse_mediawiki, Node};

fn found_in(text: &str) -> Vec<OtherLanguages> {
    let mut found = Vec::new();
    gather_text(text, &mut found);
    found
}

fn value(s: &str) -> Option<Vec<Node<'_>>> {
    Some(parse_mediawiki(s))
}

#[test]
fn gather_finds_the_japanese_names() {
    let found = found_in("x{{Other Languages|en=Mondstadt|ja=モンド|ja_rm=Mondo}}y");
    assert_eq!(found.len(), 1);
    assert_eq!(found[0].ja, value("モンド"));
    assert_eq!(found[0].ja_rm, value("Mondo"));
}

#[test]
fn gather_takes_the_first_argument_of_a_name() {
    let found = found_in("{{Other Languages|ja=a|ja=b|ja_rm|ja_rm=c}}");
    assert_eq!(found.len(), 1);
    assert_eq!(found[0].ja, value("a"));
    assert_eq!(found[0].ja_rm, value("c"));
}

#[test]
fn gather_records_missing_names_as_none() {
    let found = found_in("{{Other Languages|en=x}}{{Other Languages|ja={{Rubi|a|b}}}}");
    assert_eq!(found.len(), 2);
    assert_eq!(found[0].ja, None);
    assert_eq!(found[0].ja_rm, None);
    assert_eq!(found[1].ja, value("{{Rubi|a|b}}"));
    assert_eq!(found[1].ja_rm, None);
}

#[test]
fn gather_walks_nested_templates_in_pre_order() {
    let found =
        found_in("{{Other Languages|ja=1|x={{Other Languages|ja=2}}}}{{a|{{Other Languages|ja=3}}}}");
    assert_eq!(found.len(), 3);
    assert_eq!(found[0].ja, value("1"));
    assert_eq!(found[1].ja, value("2"));
    assert_eq!(found[2].ja, value("3"));
}

#[test]
fn gather_asks_for_the_exact_template_name() {
    assert_eq!(found_in("{{other languages|ja=a}} Other Languages").len(), 0);
    assert_eq!(found_in("{{ Other Languages |ja=a}}").len(), 1);
    assert_eq!(found_in("{{Other Languages 2|ja=a}}").len(), 0);
}

#[test]
fn gather_text_skips_text_without_the_words() {
    assert_eq!(found_in("{{Other  Languages|ja=a}}").len(), 0);
    assert_eq!(found_in("").len(), 0);
    let mut found = Vec::new();
    gather(&parse_mediawiki("{{Other\u{a0}Languages|ja=a}}"), &mut found);
    assert_eq!(found.len(), 0);
}

#[test]
fn gather_appends_to_what_was_found() {
    let mut found = found_in("{{Other Languages|ja=a}}");
    gather_text("{{Other Languages|ja=b}}", &mut found);
    gather(&parse_mediawiki("{{Other Languages|ja=c}}"), &mut found);
    assert_eq!(found.len(), 3);
    assert_eq!(found[0].ja, value("a"));
    assert_eq!(found[1].ja, value("b"));
    assert_eq!(found[2].ja, value("c"));
}

const DUMP: &str = r#"<?xml version="1.0"?>
<mediawiki>
  <siteinfo><sitename>Wiki</sitename></siteinfo>
  <page>
    <title>Mondstadt</title>
    <revision>
      <id>1</id>
      <text bytes="10">Intro {{Other Languages|en=Mondstadt|ja=モンド|ja_rm=Mondo}} &lt;b&gt;</text>
    </revision>
  </page>
  <page>
    <title>Empty</title>
    <revision><text>nothing here {{x|ja=a}}</text></revision>
  </page>
  <page>
    <title>Liyue</title>
    <revision>
      <text>{{Other Languages|ja={{Rubi|璃|り|月|ゆえ}}|ja_rm=Riiwe}} &amp; {{Other Languages|ja=港|ja_rm=Kou}}</text>
    </revision>
  </page>
</mediawiki>
"#;

#[test]
fn dump_gives_its_pages_one_by_one() {
    let mut pages = parse_database_dump(DUMP.as_bytes());

    let page = pages.next().unwrap().unwrap();
    let others = &page.revision.text.other_languages;
    assert_eq!(others.len(), 1);
    assert_eq!(others[0].ja, value("モンド"));
    assert_eq!(others[0].ja_rm, value("Mondo"));

    let page = pages.next().unwrap().unwrap();
    assert_eq!(page.revision.text.other_languages.len(), 0);

    let page = pages.next().unwrap().unwrap();
    let others = &page.revision.text.other_languages;
    assert_eq!(others.len(), 2);
    assert_eq!(others[0].ja, value("{{Rubi|璃|り|月|ゆえ}}"));
    assert_eq!(others[0].ja_rm, value("Riiwe"));
    assert_eq!(others[1].ja, value("港"));
    assert_eq!(others[1].ja_rm, value("Kou"));

    assert!(pages.next().is_none());
    assert!(pages.next().is_none());
}

#[test]
fn dump_pages_give_dictionary_entries() {
    let mut lines = Vec::new();
    let mut pages = parse_database_dump(DUMP.as_bytes());
    while let Some(page) = pages.next() {
        for entry in to_ime_dictionary_entry(&page.unwrap()) {
            lines.push(format!("{}\t{}", entry.yomi, entry.word));
        }
    }
    assert_eq!(lines, vec!["もんど\tモンド", "りーゆえ\t璃月", "こう\t港"]);
}

#[test]
fn dump_text_is_unescaped() {
    let mut pages = parse_database_dump(
        "<page><revision><text>{{Other Languages|ja=a&amp;b&lt;c|ja_rm=&#x41;}}</text></revision></page>"
            .as_bytes(),
    );
    let page = pages.next().unwrap().unwrap();
    let others = &page.revision.text.other_languages;
    assert_eq!(others.len(), 1);
    assert_eq!(others[0].ja, value("a&b<c"));
    assert_eq!(others[0].ja_rm, value("A"));
}

#[test]
fn dump_reads_text_only_inside_page_revision_text() {
    let template = "{{Other Languages|ja=a}}";
    for (xml, expected) in [
        (format!("<page><revision><text>{template}</text></revision></page>"), 1),
        (format!("<page><revision>{template}</revision></page>"), 0),
        (format!("<page><text>{template}</text></page>"), 0),
        (format!("<page><revision><text>x</text>{template}</revision></page>"), 0),
        (format!("<page><revision><text><b>{template}</b></text></revision></page>"), 1),
        (format!("<page><revision><text>x</text></revision><text>{template}</text></page>"), 1),
        (format!("<page><revision><x></x><text>{template}</text></revision></page>"), 1),
        (format!("<page><revision><text>{template}</text><text>{template}</text></revision></page>"), 2),
    ] {
        let mut pages = parse_database_dump(xml.as_bytes());
        let page = pages.next().unwrap().unwrap();
        assert_eq!(page.revision.text.other_languages.len(), expected, "{}", xml);
        assert!(pages.next().is_none());
    }
}

#[test]
fn dump_closing_a_revision_closes_the_text() {
    let xml = "<page><revision><text><revision></revision>{{Other Languages|ja=a}}</text></revision></page>";
    let mut pages = parse_database_dump(xml.as_bytes());
    let page = pages.next().unwrap().unwrap();
    assert_eq!(page.revision.text.other_languages.len(), 0);
}

#[test]
fn dump_reports_tags_that_do_not_match() {
    let xml = "<page><revision><text>a</revision>{{Other Languages|ja=a}}</page>";
    let mut pages = parse_database_dump(xml.as_bytes());
    assert!(matches!(pages.next(), Some(Err(DumpError::Read(_)))));
}

#[test]
fn dump_without_a_page_is_empty() {
    assert!(parse_database_dump(b"").next().is_none());
    assert!(parse_database_dump(b"<mediawiki></mediawiki>").next().is_none());
    assert!(parse_database_dump(b"just text").next().is_none());
}

#[test]
fn dump_cut_short_gives_no_page() {
    let mut pages = parse_database_dump(
        b"<page><revision><text>{{Other Languages|ja=a}}</text></revision>",
    );
    assert!(pages.next().is_none());
}

#[test]
fn dump_page_that_closes_without_opening_is_passed_over() {
    let mut pages = parse_database_dump(b"<a></a><page></page>");
    let page = pages.next().unwrap().unwrap();
    assert_eq!(page.revision.text.other_languages.len(), 0);
    assert!(pages.next().is_none());
}

#[test]
fn dump_reports_a_failure_to_read() {
    let mut pages = parse_database_dump(b"<page></wrong>");
    assert!(matches!(pages.next(), Some(Err(DumpError::Read(_)))));
    assert!(pages.next().is_none());
}

#[test]
fn dump_reports_text_that_cannot_be_unescaped() {
    let mut pages =
        parse_database_dump(b"<page><revision><text>a &bogus; b</text></revision></page>");
    assert!(matches!(pages.next(), Some(Err(DumpError::Unescape(_)))));
}

#[test]
fn dump_ignores_bad_escapes_outside_the_text() {
    let mut pages = parse_database_dump(
        b"<page><title>a &bogus; b</title><revision><text>x</text></revision></page>",
    );
    assert!(matches!(pages.next(), Some(Ok(_))));
}
