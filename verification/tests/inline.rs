use markdownit::inline_token::{
    cxt_stack_push, id2text_format, inline_tokenization, is_last_char_rule, nxt_is_whitespace_rule,
    nxt_non_whitespace_rule, open_cxt_checkup, InlineId, InlineToken, InlineTokenPos, Push,
    RuleResult,
};

fn text(s: &str) -> InlineToken {
    InlineToken::Text(String::from(s))
}

#[test]
fn resolver_is_pure() {
    let a = inline_tokenization(String::from("*bold* and _it_ ~s~ :e: ``c``"));
    let b = inline_tokenization(String::from("*bold* and _it_ ~s~ :e: ``c``"));
    assert_eq!(a, b);
}

#[test]
fn balanced_bold_pair() {
    let toks = inline_tokenization(String::from("*bold*"));
    assert_eq!(
        toks,
        vec![
            InlineToken::Bold(InlineTokenPos::Open),
            text("bold"),
            InlineToken::Bold(InlineTokenPos::Close),
        ]
    );
}

#[test]
fn balanced_italic_pair() {
    let toks = inline_tokenization(String::from("_it_"));
    assert_eq!(
        toks,
        vec![
            InlineToken::Italic(InlineTokenPos::Open),
            text("it"),
            InlineToken::Italic(InlineTokenPos::Close),
        ]
    );
}

#[test]
fn balanced_strike_pair() {
    let toks = inline_tokenization(String::from("~gone~"));
    assert_eq!(
        toks,
        vec![
            InlineToken::Strike(InlineTokenPos::Open),
            text("gone"),
            InlineToken::Strike(InlineTokenPos::Close),
        ]
    );
}

#[test]
fn space_on_opening_side_is_literal() {
    let toks = inline_tokenization(String::from("word * text*"));
    for t in &toks {
        assert!(matches!(t, InlineToken::Text(_)));
    }
    let joined: String = toks
        .iter()
        .map(|t| match t {
            InlineToken::Text(s) => s.clone(),
            _ => String::new(),
        })
        .collect();
    assert_eq!(joined, "word * text*");
}

#[test]
fn unclosed_bold_stays_open() {
    let toks = inline_tokenization(String::from("*bold"));
    assert_eq!(
        toks,
        vec![InlineToken::Bold(InlineTokenPos::Open), text("bold")]
    );
}

#[test]
fn caption_pair() {
    let toks = inline_tokenization(String::from("**cap**"));
    assert_eq!(
        toks,
        vec![
            InlineToken::Caption(InlineTokenPos::Open),
            text("cap"),
            InlineToken::Caption(InlineTokenPos::Close),
        ]
    );
}

#[test]
fn underline_pair() {
    let toks = inline_tokenization(String::from("__u__"));
    assert_eq!(
        toks,
        vec![
            InlineToken::Underline(InlineTokenPos::Open),
            text("u"),
            InlineToken::Underline(InlineTokenPos::Close),
        ]
    );
}

#[test]
fn code_span_pair() {
    let toks = inline_tokenization(String::from("``c``"));
    assert_eq!(
        toks,
        vec![
            InlineToken::Code(InlineTokenPos::Open),
            text("c"),
            InlineToken::Code(InlineTokenPos::Close),
        ]
    );
}

#[test]
fn emoji_pair() {
    let toks = inline_tokenization(String::from(":smile:"));
    assert_eq!(
        toks,
        vec![
            InlineToken::Emoji(InlineTokenPos::Open),
            text("smile"),
            InlineToken::Emoji(InlineTokenPos::Close),
        ]
    );
}

#[test]
fn reserved_lookahead_concern_is_reconciled() {
    // The opener is speculative under the reserved-marker rule; it never
    // closes, so reconciliation demotes it to its literal marker text.
    let toks = inline_tokenization(String::from("*~a"));
    assert_eq!(
        toks,
        vec![text("*"), InlineToken::Strike(InlineTokenPos::Open), text("a")]
    );
}

#[test]
fn plain_text_only() {
    let toks = inline_tokenization(String::from("hello"));
    assert_eq!(toks, vec![text("hello")]);
}

#[test]
fn empty_payload_resolves_to_nothing() {
    let toks = inline_tokenization(String::new());
    assert_eq!(toks, Vec::<InlineToken>::new());
}

#[test]
fn lone_marker_is_literal() {
    assert_eq!(inline_tokenization(String::from("*")), vec![text("*")]);
    assert_eq!(inline_tokenization(String::from(":")), vec![text(":")]);
}

#[test]
fn single_backtick_is_plain() {
    assert_eq!(inline_tokenization(String::from("a`b")), vec![text("a`b")]);
}

#[test]
fn id2text_format_repeats_marker() {
    assert_eq!(id2text_format(&InlineId::Italic, 2), "__");
    assert_eq!(id2text_format(&InlineId::Bold, 1), "*");
    assert_eq!(id2text_format(&InlineId::Code, 2), "``");
    assert_eq!(id2text_format(&InlineId::Text, 3), "");
}

#[test]
fn get_pos_and_get_id() {
    let t = InlineToken::Bold(InlineTokenPos::Open);
    assert!(matches!(t.get_pos(), InlineTokenPos::Open));
    assert_eq!(t.get_id(), InlineId::Bold);
    let x = text("x");
    assert!(matches!(x.get_pos(), InlineTokenPos::Neither));
    assert_eq!(x.get_id(), InlineId::Text);
}

#[test]
fn open_cxt_checkup_finds_nearest() {
    // The reversed stack is searched front to back: the nearest bold is
    // open.
    let mut rev = vec![
        text("x"),
        InlineToken::Bold(InlineTokenPos::Open),
        InlineToken::Bold(InlineTokenPos::Close),
    ];
    assert!(open_cxt_checkup(&mut rev, &InlineId::Bold));
    // The nearest bold is a close, so nothing is open.
    let mut rev2 = vec![
        InlineToken::Bold(InlineTokenPos::Close),
        InlineToken::Bold(InlineTokenPos::Open),
    ];
    assert!(!open_cxt_checkup(&mut rev2, &InlineId::Bold));
    let mut rev3 = vec![text("x")];
    assert!(!open_cxt_checkup(&mut rev3, &InlineId::Bold));
}

#[test]
fn cxt_stack_push_makes_context_token() {
    let mut stack: Vec<InlineToken> = Vec::new();
    cxt_stack_push(
        &InlineId::Strike,
        &mut stack,
        Push::Other(InlineTokenPos::Open),
    );
    cxt_stack_push(&InlineId::Bold, &mut stack, Push::Text(String::from("t")));
    cxt_stack_push(
        &InlineId::Link,
        &mut stack,
        Push::Other(InlineTokenPos::Open),
    );
    assert_eq!(
        stack,
        vec![
            InlineToken::Strike(InlineTokenPos::Open),
            text("t"),
            text("Unimplemented"),
        ]
    );
}

#[test]
fn whitespace_rule_never_opens() {
    let mut stack: Vec<InlineToken> = Vec::new();
    let mut buffer = String::new();
    nxt_is_whitespace_rule(&mut stack, &mut buffer, InlineId::Bold, 1);
    assert_eq!(stack, vec![text("*")]);

    let mut stack2 = vec![text("word ")];
    let mut buffer2 = String::new();
    nxt_is_whitespace_rule(&mut stack2, &mut buffer2, InlineId::Bold, 1);
    assert_eq!(stack2, vec![text("word "), text("*")]);

    let mut stack3 = vec![InlineToken::Bold(InlineTokenPos::Open), text("word")];
    let mut buffer3 = String::new();
    nxt_is_whitespace_rule(&mut stack3, &mut buffer3, InlineId::Bold, 1);
    assert_eq!(
        stack3,
        vec![
            InlineToken::Bold(InlineTokenPos::Open),
            text("word"),
            InlineToken::Bold(InlineTokenPos::Close),
        ]
    );
}

#[test]
fn non_whitespace_rule_opens_on_empty_state() {
    let mut stack: Vec<InlineToken> = Vec::new();
    let mut buffer = String::new();
    let r = nxt_non_whitespace_rule(&mut stack, &mut buffer, &InlineId::Italic, 1, false);
    assert_eq!(r, RuleResult::Failure);
    assert_eq!(stack, vec![InlineToken::Italic(InlineTokenPos::Open)]);
}

#[test]
fn non_whitespace_rule_closes_when_permitted() {
    let mut stack = vec![InlineToken::Bold(InlineTokenPos::Open)];
    let mut buffer = String::from("word");
    let r = nxt_non_whitespace_rule(&mut stack, &mut buffer, &InlineId::Bold, 1, true);
    assert_eq!(r, RuleResult::Success);
    assert_eq!(
        stack,
        vec![
            InlineToken::Bold(InlineTokenPos::Open),
            text("word"),
            InlineToken::Bold(InlineTokenPos::Close),
        ]
    );
    assert_eq!(buffer, "");
}

#[test]
fn last_char_rule_closes_against_open() {
    let mut stack = vec![InlineToken::Bold(InlineTokenPos::Open)];
    let mut buffer = String::from("bold");
    is_last_char_rule(&mut stack, &mut buffer, &InlineId::Bold, 1);
    assert_eq!(
        stack,
        vec![
            InlineToken::Bold(InlineTokenPos::Open),
            text("bold"),
            InlineToken::Bold(InlineTokenPos::Close),
        ]
    );
}

#[test]
fn nesting_inside_open_bold() {
    // The italic pair nests directly atop the still-open bold; the bold
    // opener was speculative under the reserved-marker rule and is
    // demoted to its literal marker at reconciliation.
    let toks = inline_tokenization(String::from("*_b_"));
    assert_eq!(
        toks,
        vec![
            text("*"),
            InlineToken::Italic(InlineTokenPos::Open),
            text("b"),
            InlineToken::Italic(InlineTokenPos::Close),
        ]
    );
}

#[test]
fn marker_after_buffered_text_is_literal() {
    let toks = inline_tokenization(String::from("*a_b_c*"));
    assert_eq!(
        toks,
        vec![
            InlineToken::Bold(InlineTokenPos::Open),
            text("a"),
            text("_"),
            text("b"),
            text("_"),
            text("c"),
            InlineToken::Bold(InlineTokenPos::Close),
        ]
    );
}
