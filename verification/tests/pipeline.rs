use markdownit::block_token::{
    BulletType, CodeBlock, HrToken, ItemValue, ListItem, ListMeta, ListToken, ListType,
};
use markdownit::inline_token::{InlineToken, InlineTokenPos};
use markdownit::{
    inline_tokens_parser, list_miner, parser, position_parser, tokenizer, Action, SecList,
    SecondaryToken,
};

fn text(s: &str) -> InlineToken {
    InlineToken::Text(String::from(s))
}

#[test]
fn heading_resolves_title() {
    let toks = tokenizer("# Title");
    assert_eq!(toks, vec![SecondaryToken::Heading(1, vec![text("Title")])]);
}

#[test]
fn two_fence_lines_open_and_close() {
    let toks = tokenizer("```\n```");
    assert_eq!(
        toks,
        vec![
            SecondaryToken::CodeBlock(CodeBlock::Open),
            SecondaryToken::CodeBlock(CodeBlock::Close),
        ]
    );
}

#[test]
fn bullet_items_and_nested_child() {
    let toks = tokenizer("- a\n- b\n    - c");
    assert_eq!(
        toks,
        vec![SecondaryToken::List(SecList {
            kind: ListType::Bullet(BulletType::Default),
            items: vec![
                (ListMeta::Plain, vec![text("a")]),
                (ListMeta::Plain, vec![text("b")]),
                (ListMeta::Plain, vec![]),
            ],
            is_nested: 0,
            nests: vec![SecList {
                kind: ListType::Bullet(BulletType::Default),
                items: vec![(ListMeta::Plain, vec![text("c")])],
                is_nested: 0,
                nests: vec![],
            }],
        })]
    );
}

#[test]
fn seven_hashes_never_a_heading() {
    let toks = tokenizer("#######");
    assert_eq!(
        toks,
        vec![
            SecondaryToken::Br,
            SecondaryToken::Text(vec![text("#######")]),
        ]
    );
}

#[test]
fn paragraph_breaks_are_dropped() {
    let toks = tokenizer("a\n\nb");
    assert_eq!(
        toks,
        vec![
            SecondaryToken::Br,
            SecondaryToken::Text(vec![text("a")]),
            SecondaryToken::Br,
            SecondaryToken::Text(vec![text("b")]),
        ]
    );
}

#[test]
fn alignment_markers_are_dropped_in_assembly() {
    let toks = tokenizer("|= # T");
    assert_eq!(toks, vec![SecondaryToken::Heading(1, vec![text("T")])]);
}

#[test]
fn empty_input_yields_no_tokens() {
    assert_eq!(tokenizer(""), Vec::<SecondaryToken>::new());
}

#[test]
fn crlf_terminators_are_stripped() {
    let toks = tokenizer("# A\r\n___\r\n");
    assert_eq!(
        toks,
        vec![
            SecondaryToken::Heading(1, vec![text("A")]),
            SecondaryToken::Hr(HrToken::Simple),
        ]
    );
}

#[test]
fn blockquote_resolves_inline() {
    // The quoted text is held span-wrapped, so the markers sit against
    // the wrapper's `>` and stay literal.
    let toks = tokenizer("> *q*");
    assert_eq!(
        toks,
        vec![SecondaryToken::Blockquote(vec![
            text("<span>"),
            text("*"),
            text("q"),
            text("*"),
            text("</span>"),
        ])]
    );
}

#[test]
fn tokenizer_is_pure() {
    let a = tokenizer("# T\n- a\n- b\n\n> q\nmore");
    let b = tokenizer("# T\n- a\n- b\n\n> q\nmore");
    assert_eq!(a, b);
}

#[test]
fn list_miner_resolves_items_and_nests() {
    let block = tokenizer("- *x*\n    - y");
    match &block[0] {
        SecondaryToken::List(l) => {
            assert_eq!(l.items.len(), 2);
            assert_eq!(
                l.items[0].1,
                vec![
                    InlineToken::Bold(InlineTokenPos::Open),
                    text("x"),
                    InlineToken::Bold(InlineTokenPos::Close),
                ]
            );
            assert_eq!(l.items[1].1, Vec::<InlineToken>::new());
            assert_eq!(l.nests.len(), 1);
            assert_eq!(l.nests[0].items[0].1, vec![text("y")]);
        },
        other => panic!("expected a list, got {:?}", other),
    }
}

#[test]
fn miner_keeps_checkbox_metadata() {
    let lt = ListToken {
        kind: ListType::Todo,
        items: vec![ListItem {
            value: ItemValue::Value(String::from("task")),
            if_meta: ListMeta::Checked,
        }],
        nests: vec![],
    };
    let mined = list_miner(&lt);
    assert_eq!(mined.kind, ListType::Todo);
    assert_eq!(mined.items, vec![(ListMeta::Checked, vec![text("task")])]);
}

// ---------------------------------------------------------------------------
// Rendering.
// ---------------------------------------------------------------------------

#[test]
fn render_heading_document() {
    let html = parser(&tokenizer("# Title"));
    assert_eq!(html, "<div>\n<h1>Title</h1>\n</p>\n</div>\n");
}

#[test]
fn render_rules_and_breaks() {
    let html = parser(&tokenizer("___\n____"));
    assert_eq!(
        html,
        "<div>\n<hr class=\"hr\">\n<hr style=\"height:0.2rem;\" class=\"hr\">\n</p>\n</div>\n"
    );
}

#[test]
fn render_text_span() {
    let html = parser(&tokenizer("hello *w*"));
    assert_eq!(
        html,
        "<div>\n<br>\n<span>hello <b class=\"bold\">w</b></span>\n</p>\n</div>\n"
    );
}

#[test]
fn render_code_fences() {
    let html = parser(&tokenizer("```\n```"));
    assert_eq!(
        html,
        "<div>\n<div class=\"code_block\">\n</div>\n</p>\n</div>\n"
    );
}

#[test]
fn render_bullet_list() {
    let html = parser(&tokenizer("- a\n- b"));
    assert_eq!(
        html,
        "<div>\n<ul style=\"list-style-type: disc;\" class=\"list\">\n<li>\na</li>\n<li>\nb</li>\n</ul>\n</p>\n</div>\n"
    );
}

#[test]
fn unmatched_trailing_opener_renders_literal() {
    // An opening token with nothing after it falls back to its literal
    // marker text in a plain span.
    let mut toks = vec![InlineToken::Bold(InlineTokenPos::Open)];
    assert_eq!(inline_tokens_parser(&mut toks), "<span>*</span>");
    let mut toks2 = vec![text("a"), InlineToken::Caption(InlineTokenPos::Open)];
    assert_eq!(inline_tokens_parser(&mut toks2), "a<span>**</span>");
}

#[test]
fn open_bold_with_text_renders_tagged() {
    let mut toks = vec![InlineToken::Bold(InlineTokenPos::Open), text("bold")];
    assert_eq!(inline_tokens_parser(&mut toks), "<b class=\"bold\">bold");
}

#[test]
fn placeholders_render_visibly() {
    let mut toks = vec![InlineToken::Link(String::from("x")), InlineToken::Size];
    assert_eq!(
        inline_tokens_parser(&mut toks),
        "#unimplimented yet##unimplimented yet#"
    );
    let mut toks2 = vec![
        InlineToken::Emoji(InlineTokenPos::Open),
        text("smile"),
        InlineToken::Emoji(InlineTokenPos::Close),
    ];
    assert_eq!(
        inline_tokens_parser(&mut toks2),
        "#unimplimented yet#smile#unimplimented yet#"
    );
}

#[test]
fn highlight_reads_colour_from_text() {
    let mut toks = vec![
        InlineToken::Highlight(InlineTokenPos::Open),
        text("red"),
        text("x"),
        InlineToken::Highlight(InlineTokenPos::Close),
    ];
    assert_eq!(
        inline_tokens_parser(&mut toks),
        "<span style=\"background-color: red;\" class=\"highlight\">x</span>"
    );
}

#[test]
fn position_parser_decides() {
    let mut html = String::new();
    let r = position_parser(&InlineTokenPos::Open, false, &mut html, "*");
    assert!(matches!(r, Action::Break));
    assert_eq!(html, "<span>*</span>");

    let mut html2 = String::new();
    let r2 = position_parser(&InlineTokenPos::Open, true, &mut html2, "*");
    assert!(matches!(r2, Action::Continue(true)));
    assert_eq!(html2, "");

    let r3 = position_parser(&InlineTokenPos::Close, false, &mut html2, "*");
    assert!(matches!(r3, Action::Continue(false)));
}

#[test]
fn render_paragraph_tokens() {
    let input = vec![SecondaryToken::P, SecondaryToken::P];
    assert_eq!(parser(&input), "<div>\n<p></p>\n<p>\n</p>\n</div>\n");
}

#[test]
fn render_blockquote() {
    let html = parser(&tokenizer("> q"));
    assert_eq!(
        html,
        "<div>\n<blockquote><span>q</span></blockquote>\n</p>\n</div>\n"
    );
}

#[test]
fn render_todo_list() {
    let html = parser(&tokenizer("-[x] done"));
    assert_eq!(
        html,
        "<div>\n<ul style=\"list-style-type:none;\" class=\"todo_list\">\n<li class=\"checked\">\n\t<input type=\"checkbox\" checked>done</li>\n</ul>\n</p>\n</div>\n"
    );
}

#[test]
fn render_nested_list() {
    let html = parser(&tokenizer("- a\n    - c"));
    assert_eq!(
        html,
        "<div>\n<ul style=\"list-style-type: disc;\" class=\"list\">\n<li>\na</li>\n<li>\n\t<ul style=\"list-style-type: disc;\" class=\"list\">\n<li>\nc</li>\n</ul>\n</li>\n</ul>\n</p>\n</div>\n"
    );
}
