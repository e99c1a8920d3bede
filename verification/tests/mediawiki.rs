use genshin_dictionary::ext::NodeExt;
use genshin_dictionary::mediawiki::{
    parse, parse_block, parse_mediawiki, parse_template, parse_template_argument, tokenize, Node,
    TemplateArgument, Token,
};

fn text(s: &str) -> Node<'_> {
    Node::Text(s.into())
}

fn positional<'a>(value: Vec<Node<'a>>) -> TemplateArgument<'a> {
    TemplateArgument { name: None, value }
}

fn named<'a>(name: &'a str, value: Vec<Node<'a>>) -> TemplateArgument<'a> {
    TemplateArgument {
        name: Some(name.into()),
        value,
    }
}

fn template<'a>(name: &'a str, arguments: Vec<TemplateArgument<'a>>) -> Node<'a> {
    Node::Template {
        name: name.into(),
        arguments,
    }
}

#[test]
fn test_tokenize() {
    let input = "aaa{aaa{}aa}aa{{aaa|{{bbb|ccc|ddd=eee}}}}{{}}";
    let mut token_iter = tokenize(input).into_iter();

    assert_eq!(token_iter.next(), Some(Token::Text("aaa{aaa{}aa}aa")));
    assert_eq!(token_iter.next(), Some(Token::StartTemplate));
    assert_eq!(token_iter.next(), Some(Token::Text("aaa")));
    assert_eq!(token_iter.next(), Some(Token::ArgumentSeparator));
    assert_eq!(token_iter.next(), Some(Token::StartTemplate));
    assert_eq!(token_iter.next(), Some(Token::Text("bbb")));
    assert_eq!(token_iter.next(), Some(Token::ArgumentSeparator));
    assert_eq!(token_iter.next(), Some(Token::Text("ccc")));
    assert_eq!(token_iter.next(), Some(Token::ArgumentSeparator));
    assert_eq!(token_iter.next(), Some(Token::Text("ddd")));
    assert_eq!(token_iter.next(), Some(Token::ArgumentKeyValueSeparator));
    assert_eq!(token_iter.next(), Some(Token::Text("eee")));
    assert_eq!(token_iter.next(), Some(Token::EndTemplate));
    assert_eq!(token_iter.next(), Some(Token::EndTemplate));
    assert_eq!(token_iter.next(), Some(Token::StartTemplate));
    assert_eq!(token_iter.next(), Some(Token::EndTemplate));
    assert_eq!(token_iter.next(), None);
}

#[test]
fn test_parse() {
    let input = "aaa{aaa{}aa}aa{{aaa|{{bbb|ccc|ddd=eee}}}}";
    let tokens = tokenize(input);
    let nodes = parse(tokens);

    assert_eq!(
        nodes,
        vec![
            Node::Text("aaa{aaa{}aa}aa".into()),
            Node::Template {
                name: "aaa".into(),
                arguments: vec![TemplateArgument {
                    name: None,
                    value: vec![Node::Template {
                        name: "bbb".into(),
                        arguments: vec![
                            TemplateArgument {
                                name: None,
                                value: vec![Node::Text("ccc".into())]
                            },
                            TemplateArgument {
                                name: Some("ddd".into()),
                                value: vec![Node::Text("eee".into())]
                            }
                        ]
                    }]
                }]
            }
        ]
    );
}

#[test]
fn tokenize_empty_text_gives_no_token() {
    assert_eq!(tokenize(""), vec![]);
}

#[test]
fn tokenize_single_braces_stay_text() {
    assert_eq!(tokenize("aaa{aaa{}aa}aa"), vec![Token::Text("aaa{aaa{}aa}aa")]);
    assert_eq!(tokenize("{"), vec![Token::Text("{")]);
    assert_eq!(tokenize("}"), vec![Token::Text("}")]);
    assert_eq!(tokenize("{}"), vec![Token::Text("{}")]);
    assert_eq!(tokenize("}{"), vec![Token::Text("}{")]);
}

#[test]
fn tokenize_three_braces_pair_from_the_left() {
    assert_eq!(tokenize("{{{"), vec![Token::StartTemplate, Token::Text("{")]);
    assert_eq!(tokenize("}}}"), vec![Token::EndTemplate, Token::Text("}")]);
    assert_eq!(
        tokenize("{{{{"),
        vec![Token::StartTemplate, Token::StartTemplate]
    );
    assert_eq!(
        tokenize("a{{{b"),
        vec![Token::Text("a"), Token::StartTemplate, Token::Text("{b")]
    );
}

#[test]
fn tokenize_single_character_delimiters_end_a_run() {
    assert_eq!(
        tokenize("a=b|c"),
        vec![
            Token::Text("a"),
            Token::ArgumentKeyValueSeparator,
            Token::Text("b"),
            Token::ArgumentSeparator,
            Token::Text("c"),
        ]
    );
    assert_eq!(
        tokenize("=|"),
        vec![Token::ArgumentKeyValueSeparator, Token::ArgumentSeparator]
    );
    assert_eq!(
        tokenize("{=}"),
        vec![
            Token::Text("{"),
            Token::ArgumentKeyValueSeparator,
            Token::Text("}"),
        ]
    );
}

#[test]
fn tokenize_counts_characters_not_bytes() {
    assert_eq!(
        tokenize("日本語{{ルビ|漢字=かんじ}}終"),
        vec![
            Token::Text("日本語"),
            Token::StartTemplate,
            Token::Text("ルビ"),
            Token::ArgumentSeparator,
            Token::Text("漢字"),
            Token::ArgumentKeyValueSeparator,
            Token::Text("かんじ"),
            Token::EndTemplate,
            Token::Text("終"),
        ]
    );
}

#[test]
fn tokenize_text_of_every_width() {
    assert_eq!(
        tokenize("aé{{日😀|ß=𠮷z}}é😀"),
        vec![
            Token::Text("aé"),
            Token::StartTemplate,
            Token::Text("日😀"),
            Token::ArgumentSeparator,
            Token::Text("ß"),
            Token::ArgumentKeyValueSeparator,
            Token::Text("𠮷z"),
            Token::EndTemplate,
            Token::Text("é😀"),
        ]
    );
}

#[test]
fn parse_nested_template() {
    assert_eq!(
        parse_mediawiki("{{aaa|{{bbb|ccc|ddd=eee}}}}"),
        vec![template(
            "aaa",
            vec![positional(vec![template(
                "bbb",
                vec![
                    positional(vec![text("ccc")]),
                    named("ddd", vec![text("eee")]),
                ],
            )])],
        )]
    );
}

#[test]
fn parse_empty_template_is_an_error_node() {
    assert_eq!(parse_mediawiki("{{}}"), vec![Node::Error]);
    assert_eq!(parse_mediawiki("{{|a}}"), vec![Node::Error, text("a")]);
    assert_eq!(parse_mediawiki("{{"), vec![Node::Error]);
}

#[test]
fn parse_error_takes_up_one_token() {
    assert_eq!(parse_mediawiki("{{{{a}}}}"), vec![Node::Error, text("a")]);
}

#[test]
fn parse_named_and_positional_argument() {
    assert_eq!(
        parse_mediawiki("{{t|x=y}}"),
        vec![template("t", vec![named("x", vec![text("y")])])]
    );
    assert_eq!(
        parse_mediawiki("{{t|x}}"),
        vec![template("t", vec![positional(vec![text("x")])])]
    );
}

#[test]
fn parse_trims_names_and_keeps_values() {
    assert_eq!(
        parse_mediawiki("{{ t \n| x = y }}"),
        vec![template("t", vec![named("x", vec![text(" y ")])])]
    );
    assert_eq!(
        parse_mediawiki("{{t| x }}"),
        vec![template("t", vec![positional(vec![text(" x ")])])]
    );
    assert_eq!(
        parse_mediawiki("{{\u{3000}t\u{a0}}}"),
        vec![template("t", vec![])]
    );
}

#[test]
fn parse_template_without_arguments() {
    assert_eq!(parse_mediawiki("{{t}}"), vec![template("t", vec![])]);
    assert_eq!(
        parse_mediawiki("a{{t}}b"),
        vec![text("a"), template("t", vec![]), text("b")]
    );
}

#[test]
fn parse_empty_arguments() {
    assert_eq!(
        parse_mediawiki("{{t|}}"),
        vec![template("t", vec![positional(vec![])])]
    );
    assert_eq!(
        parse_mediawiki("{{t||x}}"),
        vec![template(
            "t",
            vec![positional(vec![]), positional(vec![text("x")])]
        )]
    );
    assert_eq!(
        parse_mediawiki("{{t|x=}}"),
        vec![template("t", vec![named("x", vec![])])]
    );
}

#[test]
fn parse_value_with_text_and_templates() {
    assert_eq!(
        parse_mediawiki("{{t|a{{u}}b{{v|w}}}}"),
        vec![template(
            "t",
            vec![positional(vec![
                text("a"),
                template("u", vec![]),
                text("b"),
                template("v", vec![positional(vec![text("w")])]),
            ])]
        )]
    );
}

#[test]
fn parse_second_equals_sign_in_a_value_is_passed_over() {
    assert_eq!(
        parse_mediawiki("{{t|x=y=z}}"),
        vec![template("t", vec![named("x", vec![text("y"), text("z")])])]
    );
    assert_eq!(
        parse_mediawiki("{{t|=y}}"),
        vec![template("t", vec![positional(vec![text("y")])])]
    );
}

#[test]
fn parse_equals_sign_behind_the_name_starts_no_argument() {
    assert_eq!(parse_mediawiki("{{t=}}"), vec![template("t", vec![])]);
    assert_eq!(parse_mediawiki("{{t=="), vec![template("t", vec![])]);
    assert_eq!(
        parse_mediawiki("{{t=|y}}"),
        vec![template("t", vec![positional(vec![text("y")])])]
    );
}

#[test]
fn parse_text_behind_a_dropped_equals_sign_opens_an_argument() {
    assert_eq!(
        parse_mediawiki("{{t=x}}"),
        vec![template("t", vec![positional(vec![text("x")])])]
    );
    assert_eq!(
        parse_mediawiki("{{t==x}}"),
        vec![template("t", vec![positional(vec![text("x")])])]
    );
    assert_eq!(
        parse_mediawiki("{{t=x|y}}"),
        vec![template(
            "t",
            vec![positional(vec![text("x")]), positional(vec![text("y")])]
        )]
    );
    assert_eq!(
        parse_mediawiki("{{t= x =y}}"),
        vec![template("t", vec![named("x", vec![text("y")])])]
    );
    assert_eq!(
        parse_mediawiki("{{t=x{{u}}z"),
        vec![template(
            "t",
            vec![positional(vec![text("x"), template("u", vec![]), text("z")])]
        )]
    );
}

#[test]
fn parse_template_behind_a_dropped_equals_sign_opens_an_argument() {
    assert_eq!(
        parse_mediawiki("{{t={{u}}}}"),
        vec![template("t", vec![positional(vec![template("u", vec![])])])]
    );
    assert_eq!(
        parse_mediawiki("{{t={{u|v}}w|x}}"),
        vec![template(
            "t",
            vec![
                positional(vec![
                    template("u", vec![positional(vec![text("v")])]),
                    text("w")
                ]),
                positional(vec![text("x")]),
            ]
        )]
    );
}

#[test]
fn parse_text_directly_behind_the_name_is_taken_up() {
    let tokens = vec![
        Token::StartTemplate,
        Token::Text("a"),
        Token::Text("b"),
        Token::EndTemplate,
    ];
    assert_eq!(parse(tokens), vec![template("a", vec![positional(vec![])])]);
    let tokens = vec![
        Token::StartTemplate,
        Token::Text("a"),
        Token::Text("b"),
        Token::Text("c"),
        Token::ArgumentKeyValueSeparator,
        Token::Text("d"),
    ];
    assert_eq!(
        parse(tokens),
        vec![template("a", vec![named("c", vec![text("d")])])]
    );
}

#[test]
fn parse_token_behind_the_name_opens_an_argument() {
    assert_eq!(
        parse_mediawiki("{{a{{b}}}}"),
        vec![template("a", vec![positional(vec![text("b")])])]
    );
}

#[test]
fn parse_template_cut_short_by_the_end_of_input() {
    assert_eq!(
        parse_mediawiki("{{a|b"),
        vec![template("a", vec![positional(vec![text("b")])])]
    );
    assert_eq!(parse_mediawiki("{{a"), vec![template("a", vec![])]);
    assert_eq!(
        parse_mediawiki("{{a|"),
        vec![template("a", vec![positional(vec![])])]
    );
    assert_eq!(
        parse_mediawiki("{{a|b={{c|d"),
        vec![template(
            "a",
            vec![named(
                "b",
                vec![template("c", vec![positional(vec![text("d")])])]
            )]
        )]
    );
}

#[test]
fn parse_stray_tokens_in_a_block_are_passed_over() {
    assert_eq!(
        parse_mediawiki("a=b|c}}d"),
        vec![text("a"), text("b"), text("c"), text("d")]
    );
    assert_eq!(parse_mediawiki("}}=|"), vec![]);
}

#[test]
fn parse_empty_text_gives_no_node() {
    assert_eq!(parse_mediawiki(""), vec![]);
}

#[test]
fn parse_plain_text_is_one_text_node() {
    assert_eq!(parse_mediawiki("plain text"), vec![text("plain text")]);
    assert_eq!(parse_mediawiki("a { b } c"), vec![text("a { b } c")]);
}

#[test]
fn parse_block_starts_at_the_given_token() {
    let tokens = tokenize("a{{b}}c");
    assert_eq!(
        parse_block(&tokens, 0),
        vec![text("a"), template("b", vec![]), text("c")]
    );
    assert_eq!(parse_block(&tokens, 1), vec![template("b", vec![]), text("c")]);
    assert_eq!(parse_block(&tokens, 4), vec![text("c")]);
    assert_eq!(parse_block(&tokens, 5), vec![]);
    assert_eq!(parse_block(&tokens, 9), vec![]);
}

#[test]
fn parse_template_returns_the_next_position() {
    let tokens = tokenize("{{b|x=y}}c");
    assert_eq!(
        parse_template(&tokens, 1),
        (template("b", vec![named("x", vec![text("y")])]), 7)
    );
    assert_eq!(parse_template(&tokens, 0), (Node::Error, 1));
    assert_eq!(parse_template(&tokens, 8), (Node::Error, 8));
    assert_eq!(parse_template(&tokens, 20), (Node::Error, 20));
}

#[test]
fn parse_template_argument_stops_in_front_of_its_end() {
    let tokens = tokenize("{{b|x=y|z}}");
    assert_eq!(
        parse_template_argument(&tokens, 3),
        (named("x", vec![text("y")]), 6)
    );
    assert_eq!(
        parse_template_argument(&tokens, 7),
        (positional(vec![text("z")]), 8)
    );
    assert_eq!(parse_template_argument(&tokens, 8), (positional(vec![]), 8));
    assert_eq!(parse_template_argument(&tokens, 9), (positional(vec![]), 9));
    assert_eq!(
        parse_template_argument(&tokens, 30),
        (positional(vec![]), 30)
    );
}

#[test]
fn parse_gives_well_formed_nodes() {
    let inputs = [
        "",
        "plain",
        "aaa{aaa{}aa}aa{{aaa|{{bbb|ccc|ddd=eee}}}}{{}}",
        "{{ a | b = c | {{ d }} }}",
        "{{{{{{|||===}}}}}}",
        "}}{{=|{{x={{y=|z}}=}}|",
        "{{t= x =y|\u{3000}k\u{a0}= {v} }}{",
        "a{b}c=d|e{{f{{g{{h",
    ];
    for input in inputs {
        let mut seen = 0;
        parse_mediawiki(input).traverse(&mut |node: &Node| {
            seen += 1;
            match node {
                Node::Text(text) => {
                    assert!(!text.is_empty(), "{:?}", input);
                    assert!(input.contains(text.as_ref()), "{:?}", input);
                    for markup in ["|", "=", "{{", "}}"] {
                        assert!(!text.contains(markup), "{:?} in {:?}", text, input);
                    }
                }
                Node::Template { name, arguments } => {
                    assert_eq!(name.trim(), name, "{:?}", input);
                    assert!(input.contains(name.as_ref()), "{:?}", input);
                    for argument in arguments {
                        if let Some(name) = &argument.name {
                            assert_eq!(name.trim(), name, "{:?}", input);
                            assert!(input.contains(name.as_ref()), "{:?}", input);
                        }
                    }
                }
                Node::Error => {}
            }
        });
        assert!(seen > 0 || input.is_empty() || input.starts_with("}}"), "{:?}", input);
    }
}

#[test]
fn clone_keeps_the_value() {
    let nodes = parse_mediawiki("a{{t|x=y|{{u}}}}{{}}");
    let copies: Vec<Node> = nodes.iter().map(|node| node.clone()).collect();
    assert_eq!(copies, nodes);
    if let Node::Template { arguments, .. } = &nodes[1] {
        assert_eq!(arguments[0].clone(), arguments[0]);
    } else {
        panic!("a template was expected");
    }
}
