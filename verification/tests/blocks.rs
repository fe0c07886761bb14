use markdownit::block_token::{
    block_tokenization, AlignmentToken, AlphaType, BlockToken, BulletType, CodeBlock,
    HeadingToken, HrToken, ItemValue, ListItem, ListMeta, ListToken, ListType,
};

fn scan(lines: &[&str]) -> Vec<BlockToken> {
    let mut container: Vec<BlockToken> = Vec::new();
    let input_lines: Vec<&str> = lines.to_vec();
    block_tokenization(&mut container, &input_lines);
    container
}

fn lit_item(s: &str) -> ListItem {
    ListItem {
        value: ItemValue::Value(String::from(s)),
        if_meta: ListMeta::Plain,
    }
}

#[test]
fn heading_level_one() {
    let toks = scan(&["# Title"]);
    assert_eq!(
        toks,
        vec![BlockToken::Heading(HeadingToken {
            level: 1,
            value: String::from("Title"),
        })]
    );
}

#[test]
fn heading_level_three() {
    let toks = scan(&["### Deep"]);
    assert_eq!(
        toks,
        vec![BlockToken::Heading(HeadingToken {
            level: 3,
            value: String::from("Deep"),
        })]
    );
}

#[test]
fn seven_hashes_degrade() {
    let toks = scan(&["#######"]);
    assert_eq!(
        toks,
        vec![BlockToken::Br, BlockToken::Text(String::from("#######"))]
    );
}

#[test]
fn seven_hashes_with_space_degrade() {
    let toks = scan(&["####### x"]);
    assert_eq!(
        toks,
        vec![BlockToken::Br, BlockToken::Text(String::from("####### x"))]
    );
}

#[test]
fn hash_without_space_degrades() {
    let toks = scan(&["#Title"]);
    assert_eq!(
        toks,
        vec![BlockToken::Br, BlockToken::Text(String::from("#Title"))]
    );
}

#[test]
fn blank_line_is_paragraph_break() {
    let toks = scan(&["", "  "]);
    assert_eq!(toks, vec![BlockToken::P, BlockToken::P]);
}

#[test]
fn horizontal_rules() {
    assert_eq!(scan(&["___"]), vec![BlockToken::Hr(HrToken::Simple)]);
    assert_eq!(scan(&["____"]), vec![BlockToken::Hr(HrToken::Bold)]);
    assert_eq!(
        scan(&["_____"]),
        vec![BlockToken::Br, BlockToken::Text(String::from("_____"))]
    );
    assert_eq!(
        scan(&["___ x"]),
        vec![BlockToken::Br, BlockToken::Text(String::from("___ x"))]
    );
}

#[test]
fn fences_toggle() {
    let toks = scan(&["```", "```", "```"]);
    assert_eq!(
        toks,
        vec![
            BlockToken::CodeBlock(CodeBlock::Open),
            BlockToken::CodeBlock(CodeBlock::Close),
            BlockToken::CodeBlock(CodeBlock::Open),
        ]
    );
}

#[test]
fn fence_needs_exactly_three_backticks() {
    assert_eq!(
        scan(&["````"]),
        vec![BlockToken::Br, BlockToken::Text(String::from("````"))]
    );
    assert_eq!(
        scan(&["```rust"]),
        vec![BlockToken::Br, BlockToken::Text(String::from("```rust"))]
    );
}

#[test]
fn blockquote_opens_and_continues() {
    let toks = scan(&["> quoted", "more"]);
    assert_eq!(
        toks,
        vec![BlockToken::Blockquote(String::from(
            "<span>quoted</span><br>\n<span>more</span>"
        ))]
    );
}

#[test]
fn blockquote_continuation_ends_at_blank_line() {
    let toks = scan(&["> q", "", "text"]);
    assert_eq!(
        toks,
        vec![
            BlockToken::Blockquote(String::from("<span>q</span>")),
            BlockToken::P,
            BlockToken::Br,
            BlockToken::Text(String::from("text")),
        ]
    );
}

#[test]
fn blockquote_without_space_degrades() {
    let toks = scan(&[">x"]);
    assert_eq!(
        toks,
        vec![BlockToken::Br, BlockToken::Text(String::from(">x"))]
    );
}

#[test]
fn alignment_prefix_is_layered() {
    let toks = scan(&["|= # Centered"]);
    assert_eq!(
        toks,
        vec![
            BlockToken::Alignment(AlignmentToken::Center),
            BlockToken::Heading(HeadingToken {
                level: 1,
                value: String::from("Centered"),
            }),
        ]
    );
}

#[test]
fn alignment_kinds() {
    assert_eq!(
        scan(&["|< x"])[0],
        BlockToken::Alignment(AlignmentToken::Left)
    );
    assert_eq!(
        scan(&["|> x"])[0],
        BlockToken::Alignment(AlignmentToken::Right)
    );
    assert_eq!(
        scan(&["|- x"])[0],
        BlockToken::Alignment(AlignmentToken::Justify)
    );
}

#[test]
fn bullet_list_two_items() {
    let toks = scan(&["- a", "- b"]);
    assert_eq!(
        toks,
        vec![BlockToken::List(ListToken {
            kind: ListType::Bullet(BulletType::Default),
            items: vec![lit_item("a"), lit_item("b")],
            nests: vec![],
        })]
    );
}

#[test]
fn nested_bullet_item() {
    let toks = scan(&["- a", "- b", "    - c"]);
    assert_eq!(
        toks,
        vec![BlockToken::List(ListToken {
            kind: ListType::Bullet(BulletType::Default),
            items: vec![
                lit_item("a"),
                lit_item("b"),
                ListItem {
                    value: ItemValue::Nesting(0),
                    if_meta: ListMeta::Plain,
                },
            ],
            nests: vec![ListToken {
                kind: ListType::Bullet(BulletType::Default),
                items: vec![lit_item("c")],
                nests: vec![],
            }],
        })]
    );
}

#[test]
fn tab_nested_item() {
    let toks = scan(&["- a", "\t- c"]);
    assert_eq!(
        toks,
        vec![BlockToken::List(ListToken {
            kind: ListType::Bullet(BulletType::Default),
            items: vec![
                lit_item("a"),
                ListItem {
                    value: ItemValue::Nesting(0),
                    if_meta: ListMeta::Plain,
                },
            ],
            nests: vec![ListToken {
                kind: ListType::Bullet(BulletType::Default),
                items: vec![lit_item("c")],
                nests: vec![],
            }],
        })]
    );
}

#[test]
fn todo_list_checkboxes() {
    let toks = scan(&["-[x] done", "-[ ] open"]);
    assert_eq!(
        toks,
        vec![BlockToken::List(ListToken {
            kind: ListType::Todo,
            items: vec![
                ListItem {
                    value: ItemValue::Value(String::from("done")),
                    if_meta: ListMeta::Checked,
                },
                ListItem {
                    value: ItemValue::Value(String::from("open")),
                    if_meta: ListMeta::Unchecked,
                },
            ],
            nests: vec![],
        })]
    );
}

#[test]
fn custom_bullet_list() {
    let toks = scan(&["-(square) s"]);
    assert_eq!(
        toks,
        vec![BlockToken::List(ListToken {
            kind: ListType::Bullet(BulletType::Custom(String::from("square"))),
            items: vec![lit_item("s")],
            nests: vec![],
        })]
    );
}

#[test]
fn custom_bullet_name_overflow_degrades() {
    let toks = scan(&["-(elevenchars) s"]);
    assert_eq!(
        toks,
        vec![
            BlockToken::Br,
            BlockToken::Text(String::from("-(elevenchars) s")),
        ]
    );
}

#[test]
fn numbered_list() {
    let toks = scan(&["1. one", "12. twelve"]);
    assert_eq!(
        toks,
        vec![BlockToken::List(ListToken {
            kind: ListType::Numbered,
            items: vec![lit_item("one"), lit_item("twelve")],
            nests: vec![],
        })]
    );
}

#[test]
fn numbered_without_dot_degrades() {
    let toks = scan(&["1 one"]);
    assert_eq!(
        toks,
        vec![BlockToken::Br, BlockToken::Text(String::from("1 one"))]
    );
}

#[test]
fn alphabetic_lists() {
    let toks = scan(&["a. low"]);
    assert_eq!(
        toks,
        vec![BlockToken::List(ListToken {
            kind: ListType::Alphabetic(AlphaType::Lower),
            items: vec![lit_item("low")],
            nests: vec![],
        })]
    );
    let toks2 = scan(&["B) up"]);
    assert_eq!(
        toks2,
        vec![BlockToken::List(ListToken {
            kind: ListType::Alphabetic(AlphaType::Upper),
            items: vec![lit_item("up")],
            nests: vec![],
        })]
    );
}

#[test]
fn roman_style_marker_stays_alphabetic() {
    // A run of `i` letters counts toward a would-be roman form, but no
    // roman list is ever produced.
    let toks = scan(&["ii. second"]);
    assert_eq!(
        toks,
        vec![BlockToken::List(ListToken {
            kind: ListType::Alphabetic(AlphaType::Lower),
            items: vec![lit_item("second")],
            nests: vec![],
        })]
    );
}

#[test]
fn kind_change_starts_sibling_list() {
    let toks = scan(&["- a", "1. one"]);
    assert_eq!(
        toks,
        vec![
            BlockToken::List(ListToken {
                kind: ListType::Bullet(BulletType::Default),
                items: vec![lit_item("a")],
                nests: vec![],
            }),
            BlockToken::List(ListToken {
                kind: ListType::Numbered,
                items: vec![lit_item("one")],
                nests: vec![],
            }),
        ]
    );
}

#[test]
fn indented_item_without_list_degrades() {
    let toks = scan(&["    - c"]);
    assert_eq!(
        toks,
        vec![BlockToken::Br, BlockToken::Text(String::from("    - c"))]
    );
}

#[test]
fn odd_indentation_degrades() {
    let toks = scan(&["  - c"]);
    assert_eq!(
        toks,
        vec![BlockToken::Br, BlockToken::Text(String::from("  - c"))]
    );
}

#[test]
fn unrecognized_line_degrades_verbatim() {
    let toks = scan(&["!what?"]);
    assert_eq!(
        toks,
        vec![BlockToken::Br, BlockToken::Text(String::from("!what?"))]
    );
}

#[test]
fn scan_appends_after_existing_tokens() {
    let mut container = vec![BlockToken::CodeBlock(CodeBlock::Open)];
    let input_lines: Vec<&str> = vec!["```"];
    block_tokenization(&mut container, &input_lines);
    assert_eq!(
        container,
        vec![
            BlockToken::CodeBlock(CodeBlock::Open),
            BlockToken::CodeBlock(CodeBlock::Close),
        ]
    );
}
