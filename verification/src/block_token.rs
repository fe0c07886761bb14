//! Block-level tokens and the block scanner: one pass over the input lines,
//! one line of lookahead, a single blockquote-continuation flag, and an
//! embedded list-building sub-protocol.

use vstd::prelude::*;

verus! {

/// A heading block: level 1 to 6 and the raw heading text.
#[derive(Debug, Clone, PartialEq)]
pub struct HeadingToken {
    pub level: usize,
    pub value: String,
}

/// Horizontal-rule styles: a run of three underscores is simple, four is bold.
#[derive(Debug, Clone, Copy, PartialEq, Eq, Structural)]
pub enum HrToken {
    Simple,
    Bold,
}

/// A fence line's role: `Open` starts a code block, `Close` ends it.
#[derive(Debug, Clone, Copy, PartialEq, Eq, Structural)]
pub enum CodeBlock {
    Open,
    Close,
}

/// Alignment markers introduced by the `|< `, `|> `, `|= `, `|- ` prefixes.
#[derive(Debug, Clone, Copy, PartialEq, Eq, Structural)]
pub enum AlignmentToken {
    Left,
    Right,
    Center,
    Justify,
}

/// One block-level token. A scanned line yields zero, one, or two of these;
/// malformed input degrades to the `Br` + `Text` fallback pair.
#[derive(Debug, PartialEq)]
pub enum BlockToken {
    Br,
    P,
    Hr(HrToken),
    Text(String),
    Form(String),
    Table(String),
    List(ListToken),
    CodeBlock(CodeBlock),
    Blockquote(String),
    Heading(HeadingToken),
    Alignment(AlignmentToken),
    Image(String),
}

/// Bullet styles: the plain `-` marker, or a custom style name captured
/// from a `-(name)` marker.
#[derive(Debug, Clone)]
pub enum BulletType {
    Default,
    Custom(String),
}

/// Checkbox metadata of a list item.
#[derive(Debug, Clone, Copy, PartialEq, Eq, Structural)]
pub enum ListMeta {
    Plain,
    Checked,
    Unchecked,
}

/// The kind of one list: homogeneous within a single `ListToken`.
#[derive(Debug, Clone)]
pub enum ListType {
    Todo,
    Numbered,
    Roman(RomanType),
    Bullet(BulletType),
    Alphabetic(AlphaType),
}

/// Letter case of a roman-numeral list. Declared for completeness: no scan
/// path produces a roman list.
#[derive(Debug, Clone, Copy, PartialEq, Eq, Structural)]
pub enum RomanType {
    Upper,
    Lower,
}

/// Letter case of an alphabetic list.
#[derive(Debug, Clone, Copy, PartialEq, Eq, Structural)]
pub enum AlphaType {
    Upper,
    Lower,
}

/// A list item's value: literal text, or a reference into the owning
/// list's `nests` sequence.
#[derive(Debug, Clone, PartialEq)]
pub enum ItemValue {
    Value(String),
    Nesting(usize),
}

/// One list item: its value and its checkbox metadata.
#[derive(Debug, Clone, PartialEq)]
pub struct ListItem {
    pub value: ItemValue,
    pub if_meta: ListMeta,
}

/// One contiguous list at one indentation level: its kind, its ordered
/// items, and its child lists, addressed by index from `Nesting` items.
#[derive(Debug, PartialEq)]
pub struct ListToken {
    pub kind: ListType,
    pub items: Vec<ListItem>,
    pub nests: Vec<ListToken>,
}

impl PartialEq for BulletType {
    fn eq(&self, other: &BulletType) -> bool {
        match (self, other) {
            (BulletType::Default, BulletType::Default) => true,
            (BulletType::Custom(a), BulletType::Custom(b)) => *a == *b,
            _ => false,
        }
    }
}

impl vstd::std_specs::cmp::PartialEqSpecImpl for BulletType {
    open spec fn obeys_eq_spec() -> bool {
        true
    }

    open spec fn eq_spec(&self, other: &BulletType) -> bool {
        self@ == other@
    }
}

impl PartialEq for ListType {
    fn eq(&self, other: &ListType) -> bool {
        match (self, other) {
            (ListType::Todo, ListType::Todo) => true,
            (ListType::Numbered, ListType::Numbered) => true,
            (ListType::Roman(a), ListType::Roman(b)) => a == b,
            (ListType::Bullet(a), ListType::Bullet(b)) => a == b,
            (ListType::Alphabetic(a), ListType::Alphabetic(b)) => a == b,
            _ => false,
        }
    }
}

impl vstd::std_specs::cmp::PartialEqSpecImpl for ListType {
    open spec fn obeys_eq_spec() -> bool {
        true
    }

    open spec fn eq_spec(&self, other: &ListType) -> bool {
        self@ == other@
    }
}

// ---------------------------------------------------------------------------
// Mathematical models of the block tokens, over `Seq<char>`.
// ---------------------------------------------------------------------------

/// Model of a bullet style.
pub enum BulletM {
    Default,
    Custom(Seq<char>),
}

/// Model of a list kind.
pub enum KindM {
    Todo,
    Numbered,
    Roman(RomanType),
    Bullet(BulletM),
    Alphabetic(AlphaType),
}

/// Model of a list item's value.
pub enum ItemValM {
    Lit(Seq<char>),
    Nest(int),
}

/// Model of a list item.
pub struct ItemM {
    pub value: ItemValM,
    pub meta: ListMeta,
}

/// Model of a list token.
pub struct ListM {
    pub kind: KindM,
    pub items: Seq<ItemM>,
    pub nests: Seq<ListM>,
}

/// Model of a block token.
pub enum BTokM {
    Br,
    Par,
    Hr(HrToken),
    Text(Seq<char>),
    Form(Seq<char>),
    Table(Seq<char>),
    List(ListM),
    Fence(CodeBlock),
    Quote(Seq<char>),
    Heading(int, Seq<char>),
    Align(AlignmentToken),
    Image(Seq<char>),
}

impl View for BulletType {
    type V = BulletM;

    open spec fn view(&self) -> BulletM {
        match self {
            BulletType::Default => BulletM::Default,
            BulletType::Custom(s) => BulletM::Custom(s@),
        }
    }
}

impl View for ListType {
    type V = KindM;

    open spec fn view(&self) -> KindM {
        match self {
            ListType::Todo => KindM::Todo,
            ListType::Numbered => KindM::Numbered,
            ListType::Roman(c) => KindM::Roman(*c),
            ListType::Bullet(b) => KindM::Bullet(b@),
            ListType::Alphabetic(c) => KindM::Alphabetic(*c),
        }
    }
}

impl View for ItemValue {
    type V = ItemValM;

    open spec fn view(&self) -> ItemValM {
        match self {
            ItemValue::Value(s) => ItemValM::Lit(s@),
            ItemValue::Nesting(i) => ItemValM::Nest(*i as int),
        }
    }
}

impl View for ListItem {
    type V = ItemM;

    open spec fn view(&self) -> ItemM {
        ItemM { value: self.value@, meta: self.if_meta }
    }
}

/// Models of a sequence of list tokens, in order.
pub open spec fn lists_model(ls: Seq<ListToken>) -> Seq<ListM>
    decreases ls, 0int,
{
    if ls.len() == 0 {
        Seq::empty()
    } else {
        seq![list_model(ls[0])] + lists_model(ls.skip(1))
    }
}

/// Model of a list token, recursively over its child lists.
pub open spec fn list_model(l: ListToken) -> ListM
    decreases l, 1int,
{
    ListM {
        kind: l.kind@,
        items: l.items@.map_values(|it: ListItem| it@),
        nests: lists_model(l.nests@),
    }
}

/// `lists_model` is the pointwise model of its argument.
pub proof fn lemma_lists_model(ls: Seq<ListToken>)
    ensures
        lists_model(ls).len() == ls.len(),
        forall|i: int| 0 <= i < ls.len() ==> lists_model(ls)[i] == list_model(ls[i]),
    decreases ls.len(),
{
    if ls.len() > 0 {
        lemma_lists_model(ls.skip(1));
        assert forall|i: int| 0 <= i < ls.len() implies lists_model(ls)[i] == list_model(
            ls[i],
        ) by {
            if i > 0 {
                assert(lists_model(ls)[i] == lists_model(ls.skip(1))[i - 1]);
                assert(ls.skip(1)[i - 1] == ls[i]);
            }
        }
    }
}

impl View for ListToken {
    type V = ListM;

    open spec fn view(&self) -> ListM {
        list_model(*self)
    }
}

impl View for BlockToken {
    type V = BTokM;

    open spec fn view(&self) -> BTokM {
        match self {
            BlockToken::Br => BTokM::Br,
            BlockToken::P => BTokM::Par,
            BlockToken::Hr(h) => BTokM::Hr(*h),
            BlockToken::Text(s) => BTokM::Text(s@),
            BlockToken::Form(s) => BTokM::Form(s@),
            BlockToken::Table(s) => BTokM::Table(s@),
            BlockToken::List(l) => BTokM::List(list_model(*l)),
            BlockToken::CodeBlock(c) => BTokM::Fence(*c),
            BlockToken::Blockquote(s) => BTokM::Quote(s@),
            BlockToken::Heading(h) => BTokM::Heading(h.level as int, h.value@),
            BlockToken::Alignment(a) => BTokM::Align(*a),
            BlockToken::Image(s) => BTokM::Image(s@),
        }
    }
}

/// The models of a sequence of block tokens.
pub open spec fn btoks(s: Seq<BlockToken>) -> Seq<BTokM> {
    s.map_values(|t: BlockToken| t@)
}

pub proof fn lemma_btoks_push(s: Seq<BlockToken>, t: BlockToken)
    ensures
        btoks(s.push(t)) == btoks(s).push(t@),
{
    assert(btoks(s.push(t)) =~= btoks(s).push(t@));
}

pub proof fn lemma_btoks_update(s: Seq<BlockToken>, i: int, t: BlockToken)
    requires
        0 <= i < s.len(),
    ensures
        btoks(s.update(i, t)) == btoks(s).update(i, t@),
{
    assert(btoks(s.update(i, t)) =~= btoks(s).update(i, t@));
}

// ---------------------------------------------------------------------------
// Line classification, specified over `Seq<char>`.
// ---------------------------------------------------------------------------

/// The two-token degradation of a line that fits no block form.
pub open spec fn fallback_toks(line: Seq<char>) -> Seq<BTokM> {
    seq![BTokM::Br, BTokM::Text(line)]
}

/// Length of the run of the character `c` in `s` starting at `from`.
pub open spec fn run_len(s: Seq<char>, from: int, c: char) -> nat
    decreases s.len() - from,
{
    if from < 0 || from >= s.len() || s[from] != c {
        0
    } else {
        1 + run_len(s, from + 1, c)
    }
}

/// Length of the run of Unicode-numeric characters in `s` starting at `from`.
pub open spec fn digit_run(s: Seq<char>, from: int) -> nat
    decreases s.len() - from,
{
    if from < 0 || from >= s.len() || !crate::text::numeric_char(s[from]) {
        0
    } else {
        1 + digit_run(s, from + 1)
    }
}

/// Length of the run of characters other than `')'` in `s` starting at `from`.
pub open spec fn plain_run(s: Seq<char>, from: int) -> nat
    decreases s.len() - from,
{
    if from < 0 || from >= s.len() || s[from] == ')' {
        0
    } else {
        1 + plain_run(s, from + 1)
    }
}

/// Whether every character of the line is Unicode whitespace (a blank line).
pub open spec fn all_white(line: Seq<char>) -> bool {
    forall|i: int| 0 <= i < line.len() ==> crate::text::white_char(line[i])
}

/// The ASCII whitespace characters, exactly as `char::is_ascii_whitespace`
/// defines them: space, horizontal tab, line feed, form feed, carriage return.
pub open spec fn ascii_white(c: char) -> bool {
    c == ' ' || c == '\t' || c == '\n' || c == '\u{c}' || c == '\r'
}

/// A heading line: a run of one to six `'#'` followed by a space yields a
/// heading of that level carrying the rest of the line; anything else
/// degrades to the fallback pair.
pub open spec fn heading_toks(line: Seq<char>) -> Seq<BTokM> {
    let k = run_len(line, 0, '#');
    if 1 <= k <= 6 && k < line.len() && line[k as int] == ' ' {
        seq![BTokM::Heading(k as int, line.skip(k as int + 1))]
    } else {
        fallback_toks(line)
    }
}

/// A horizontal-rule line: only `'_'` and ASCII whitespace, with a leading
/// underscore run of exactly three (simple) or four (bold).
pub open spec fn hr_toks(line: Seq<char>) -> Seq<BTokM> {
    if forall|i: int| 0 <= i < line.len() ==> line[i] == '_' || ascii_white(line[i]) {
        let k = run_len(line, 0, '_');
        if k == 3 {
            seq![BTokM::Hr(HrToken::Simple)]
        } else if k == 4 {
            seq![BTokM::Hr(HrToken::Bold)]
        } else {
            fallback_toks(line)
        }
    } else {
        fallback_toks(line)
    }
}

/// Whether a line opens a blockquote: `'>'` followed by a space.
pub open spec fn quote_ok(line: Seq<char>) -> bool {
    line.len() >= 2 && line[0] == '>' && line[1] == ' '
}

/// The quoted text is held wrapped in a span.
pub open spec fn span_wrap(s: Seq<char>) -> Seq<char> {
    "<span>"@ + s + "</span>"@
}

/// A blockquote line yields one quote token holding the wrapped text.
pub open spec fn quote_toks(line: Seq<char>) -> Seq<BTokM> {
    if quote_ok(line) {
        seq![BTokM::Quote(span_wrap(line.skip(2)))]
    } else {
        fallback_toks(line)
    }
}

/// What a continuation line appends to an open blockquote.
pub open spec fn quote_cont(value: Seq<char>, line: Seq<char>) -> Seq<char> {
    value + "<br>\n<span>"@ + line + "</span>"@
}

/// A fence line is exactly three backticks.
pub open spec fn fence_line_ok(line: Seq<char>) -> bool {
    line.len() == 3 && line[0] == '`' && line[1] == '`' && line[2] == '`'
}

/// The role of a new fence, toggled against the nearest prior fence token:
/// none or a close reopens, an open closes.
pub open spec fn fence_toggle(last: Option<CodeBlock>) -> CodeBlock {
    match last {
        Option::Some(CodeBlock::Open) => CodeBlock::Close,
        _ => CodeBlock::Open,
    }
}

/// A fence line yields one fence token with the toggled role.
pub open spec fn fence_toks(line: Seq<char>, last: Option<CodeBlock>) -> Seq<BTokM> {
    if fence_line_ok(line) {
        seq![BTokM::Fence(fence_toggle(last))]
    } else {
        fallback_toks(line)
    }
}

/// The role of the nearest fence token, searching backward.
pub open spec fn latest_fence(toks: Seq<BTokM>) -> Option<CodeBlock>
    decreases toks.len(),
{
    if toks.len() == 0 {
        Option::None
    } else {
        match toks.last() {
            BTokM::Fence(c) => Option::Some(c),
            _ => latest_fence(toks.drop_last()),
        }
    }
}

/// The position of the nearest quote token, searching backward.
pub open spec fn latest_quote(toks: Seq<BTokM>) -> Option<int>
    decreases toks.len(),
{
    if toks.len() == 0 {
        Option::None
    } else {
        match toks.last() {
            BTokM::Quote(v) => Option::Some(toks.len() - 1),
            _ => latest_quote(toks.drop_last()),
        }
    }
}

/// The alignment marker a line's first three characters select, if any.
pub open spec fn align_of(line: Seq<char>) -> Option<AlignmentToken> {
    if line.len() >= 3 && line[0] == '|' && line[2] == ' ' {
        if line[1] == '<' {
            Option::Some(AlignmentToken::Left)
        } else if line[1] == '>' {
            Option::Some(AlignmentToken::Right)
        } else if line[1] == '=' {
            Option::Some(AlignmentToken::Center)
        } else if line[1] == '-' {
            Option::Some(AlignmentToken::Justify)
        } else {
            Option::None
        }
    } else {
        Option::None
    }
}

// ---------------------------------------------------------------------------
// The list sub-protocol, specified over `Seq<char>`.
// ---------------------------------------------------------------------------

/// A parsed list marker: the list kind it selects, the checkbox metadata,
/// and the position where the item's text starts.
pub struct ParsedMarker {
    pub kind: KindM,
    pub meta: ListMeta,
    pub content_from: int,
}

/// Parse a bulleted-family marker at position `n`: `- `, a checkbox marker
/// `-[x] `/`-[X] `/`-[ ] `, or a custom bullet `-(name) ` with a name of at
/// most ten characters.
pub open spec fn parse_bullet(line: Seq<char>, n: int) -> Option<ParsedMarker> {
    if n < 0 || n >= line.len() || line[n] != '-' {
        Option::None
    } else if n + 1 < line.len() && line[n + 1] == ' ' {
        Option::Some(
            ParsedMarker {
                kind: KindM::Bullet(BulletM::Default),
                meta: ListMeta::Plain,
                content_from: n + 2,
            },
        )
    } else if n + 4 < line.len() && line[n + 1] == '[' && (line[n + 2] == 'x' || line[n + 2] == 'X'
        || line[n + 2] == ' ') && line[n + 3] == ']' && line[n + 4] == ' ' {
        Option::Some(
            ParsedMarker {
                kind: KindM::Todo,
                meta: if line[n + 2] == ' ' {
                    ListMeta::Unchecked
                } else {
                    ListMeta::Checked
                },
                content_from: n + 5,
            },
        )
    } else if n + 1 < line.len() && line[n + 1] == '(' {
        let m = plain_run(line, n + 2);
        if m <= 10 && n + 2 + m < line.len() && line[n + 2 + m] == ')' && n + 3 + m < line.len()
            && line[n + 3 + m] == ' ' {
            Option::Some(
                ParsedMarker {
                    kind: KindM::Bullet(BulletM::Custom(line.subrange(n + 2, n + 2 + m))),
                    meta: ListMeta::Plain,
                    content_from: n + 4 + m,
                },
            )
        } else {
            Option::None
        }
    } else {
        Option::None
    }
}

/// Parse a numbered marker at position `n`: digits, a dot, a space.
pub open spec fn parse_numbered(line: Seq<char>, n: int) -> Option<ParsedMarker> {
    let d = digit_run(line, n);
    if n >= 0 && d >= 1 && n + d + 1 < line.len() && line[n + d] == '.' && line[n + d + 1]
        == ' ' {
        Option::Some(
            ParsedMarker { kind: KindM::Numbered, meta: ListMeta::Plain, content_from: n + d + 2 },
        )
    } else {
        Option::None
    }
}

/// Parse an alphabetic marker at position `n`: one letter, a run of `'i'`
/// letters counting toward a would-be roman form, then a dot or a closing
/// parenthesis, then a space. The first letter's case fixes the list case.
pub open spec fn parse_alpha(line: Seq<char>, n: int) -> Option<ParsedMarker> {
    if n >= 0 && n < line.len() && crate::text::alpha_char(line[n]) {
        let j = run_len(line, n + 1, 'i');
        let p = n + 1 + j;
        if p + 1 < line.len() && (line[p] == '.' || line[p] == ')') && line[p + 1] == ' ' {
            Option::Some(
                ParsedMarker {
                    kind: KindM::Alphabetic(
                        if crate::text::upper_char(line[n]) {
                            AlphaType::Upper
                        } else {
                            AlphaType::Lower
                        },
                    ),
                    meta: ListMeta::Plain,
                    content_from: p + 2,
                },
            )
        } else {
            Option::None
        }
    } else {
        Option::None
    }
}

/// A one-item list of the given kind.
pub open spec fn singleton_list(kind: KindM, meta: ListMeta, content: Seq<char>) -> ListM {
    ListM {
        kind: kind,
        items: seq![ItemM { value: ItemValM::Lit(content), meta: meta }],
        nests: Seq::empty(),
    }
}

/// How a parsed list item enters the token sequence. At indentation zero it
/// continues the last list when the kind matches and otherwise starts a new
/// sibling list; indented it continues the last child list when that kind
/// matches and otherwise starts a new child, referenced from the parent by a
/// nesting item. An indented item with no open list degrades to the
/// fallback pair.
pub open spec fn add_list_item(
    toks: Seq<BTokM>,
    nesting: int,
    kind: KindM,
    meta: ListMeta,
    content: Seq<char>,
    line: Seq<char>,
) -> Seq<BTokM> {
    if toks.len() > 0 && (toks.last() matches BTokM::List(l)) {
        let l = toks.last()->List_0;
        let item = ItemM { value: ItemValM::Lit(content), meta: meta };
        if nesting > 0 {
            if l.nests.len() > 0 && l.nests.last().kind == kind {
                let child = l.nests.last();
                let child2 = ListM {
                    kind: child.kind,
                    items: child.items.push(item),
                    nests: child.nests,
                };
                let l2 = ListM {
                    kind: l.kind,
                    items: l.items,
                    nests: l.nests.update(l.nests.len() - 1, child2),
                };
                toks.update(toks.len() - 1, BTokM::List(l2))
            } else {
                let child = singleton_list(kind, meta, content);
                let l2 = ListM {
                    kind: l.kind,
                    items: l.items.push(
                        ItemM { value: ItemValM::Nest(l.nests.len() as int), meta: ListMeta::Plain },
                    ),
                    nests: l.nests.push(child),
                };
                toks.update(toks.len() - 1, BTokM::List(l2))
            }
        } else {
            if l.kind == kind {
                let l2 = ListM { kind: l.kind, items: l.items.push(item), nests: l.nests };
                toks.update(toks.len() - 1, BTokM::List(l2))
            } else {
                toks.push(BTokM::List(singleton_list(kind, meta, content)))
            }
        }
    } else {
        if nesting > 0 {
            toks + fallback_toks(line)
        } else {
            toks.push(BTokM::List(singleton_list(kind, meta, content)))
        }
    }
}

/// A list line at indentation `n`: parse the marker family selected by the
/// first character after the indentation and add the item; a malformed
/// marker degrades to the fallback pair.
pub open spec fn list_step(toks: Seq<BTokM>, line: Seq<char>, n: int) -> Seq<BTokM> {
    let p = if 0 <= n < line.len() && line[n] == '-' {
        parse_bullet(line, n)
    } else if 0 <= n < line.len() && crate::text::numeric_char(line[n]) {
        parse_numbered(line, n)
    } else if 0 <= n < line.len() && crate::text::alpha_char(line[n]) {
        parse_alpha(line, n)
    } else {
        Option::None
    };
    match p {
        Option::Some(pm) => add_list_item(toks, n, pm.kind, pm.meta, line.skip(pm.content_from), line),
        Option::None => toks + fallback_toks(line),
    }
}

// ---------------------------------------------------------------------------
// The whole scan.
// ---------------------------------------------------------------------------

/// The scanner's cross-line state: the tokens so far and whether a
/// blockquote continuation is active.
pub struct ScanM {
    pub toks: Seq<BTokM>,
    pub quote_on: bool,
}

/// One line's effect once blank lines, the alignment prefix and the
/// continuation flag have been handled: dispatch on the first character.
pub open spec fn dispatch_step(st: ScanM, line: Seq<char>) -> ScanM {
    if line[0] == '#' {
        ScanM { toks: st.toks + heading_toks(line), quote_on: st.quote_on }
    } else if line[0] == '_' {
        ScanM { toks: st.toks + hr_toks(line), quote_on: st.quote_on }
    } else if line[0] == '>' {
        ScanM { toks: st.toks + quote_toks(line), quote_on: quote_ok(line) }
    } else if line[0] == '`' {
        ScanM { toks: st.toks + fence_toks(line, latest_fence(st.toks)), quote_on: st.quote_on }
    } else if line[0] == ' ' {
        let k = run_len(line, 0, ' ');
        if k % 4 == 0 && k < line.len() {
            ScanM { toks: list_step(st.toks, line, k as int), quote_on: st.quote_on }
        } else {
            ScanM { toks: st.toks + fallback_toks(line), quote_on: st.quote_on }
        }
    } else if line[0] == '\t' {
        let k = run_len(line, 0, '\t');
        if k < line.len() {
            ScanM { toks: list_step(st.toks, line, k as int), quote_on: st.quote_on }
        } else {
            ScanM { toks: st.toks + fallback_toks(line), quote_on: st.quote_on }
        }
    } else if line[0] == '-' || crate::text::numeric_char(line[0]) || crate::text::alpha_char(
        line[0],
    ) {
        ScanM { toks: list_step(st.toks, line, 0), quote_on: st.quote_on }
    } else {
        ScanM { toks: st.toks + fallback_toks(line), quote_on: st.quote_on }
    }
}

/// A line after the alignment prefix has been stripped: a continuation line
/// is appended to the nearest open blockquote; an empty remainder yields
/// nothing; anything else is dispatched.
pub open spec fn rest_step(st: ScanM, line: Seq<char>) -> ScanM {
    if st.quote_on {
        match latest_quote(st.toks) {
            Option::Some(qi) => {
                let v = st.toks[qi]->Quote_0;
                ScanM {
                    toks: st.toks.update(qi, BTokM::Quote(quote_cont(v, line))),
                    quote_on: true,
                }
            },
            Option::None => {
                if line.len() == 0 {
                    st
                } else {
                    dispatch_step(st, line)
                }
            },
        }
    } else if line.len() == 0 {
        st
    } else {
        dispatch_step(st, line)
    }
}

/// One line's effect on the scanner state: a blank line yields a paragraph
/// break and clears the continuation flag; an alignment prefix yields its
/// marker and the remainder falls through to further classification.
pub open spec fn line_step(st: ScanM, line: Seq<char>) -> ScanM {
    if all_white(line) {
        ScanM { toks: st.toks.push(BTokM::Par), quote_on: false }
    } else {
        match align_of(line) {
            Option::Some(a) => rest_step(
                ScanM { toks: st.toks.push(BTokM::Align(a)), quote_on: st.quote_on },
                line.skip(3),
            ),
            Option::None => rest_step(st, line),
        }
    }
}

/// The scan of the lines from index `i` on.
pub open spec fn scan_lines(st: ScanM, ls: Seq<Seq<char>>, i: int) -> ScanM
    decreases ls.len() - i,
{
    if i < 0 || i >= ls.len() {
        st
    } else {
        scan_lines(line_step(st, ls[i]), ls, i + 1)
    }
}

/// The views of a sequence of string slices.
pub open spec fn line_views(s: Seq<&str>) -> Seq<Seq<char>> {
    s.map_values(|l: &str| l@)
}

/// The block-token models that scanning `lines` after `toks0` produces.
pub open spec fn spec_block_scan(toks0: Seq<BTokM>, lines: Seq<Seq<char>>) -> Seq<BTokM> {
    scan_lines(ScanM { toks: toks0, quote_on: false }, lines, 0).toks
}

// ---------------------------------------------------------------------------
// Executable helpers.
// ---------------------------------------------------------------------------

/// Push the fallback pair for a malformed line: a line break and the
/// verbatim text.
fn push_fallback(line: &Vec<char>, container: &mut Vec<BlockToken>)
    ensures
        btoks(final(container)@) == btoks(old(container)@) + fallback_toks(line@),
{
    let ghost t0 = container@;
    container.push(BlockToken::Br);
    let text = crate::text::string_of(line);
    container.push(BlockToken::Text(text));
    proof {
        lemma_btoks_push(t0, BlockToken::Br);
        lemma_btoks_push(t0.push(BlockToken::Br), BlockToken::Text(text));
        assert(btoks(container@) =~= btoks(t0) + fallback_toks(line@));
    }
}

/// Count the run of the character `c` starting at `from`.
fn run_count(v: &Vec<char>, from: usize, c: char) -> (r: usize)
    requires
        from <= v@.len(),
    ensures
        r == run_len(v@, from as int, c),
        from + r <= v@.len(),
{
    let mut i: usize = from;
    while i < v.len() && v[i] == c
        invariant
            from <= i <= v@.len(),
            run_len(v@, from as int, c) == i - from + run_len(v@, i as int, c),
        decreases v@.len() - i,
    {
        i = i + 1;
    }
    i - from
}

/// Count the run of numeric characters starting at `from`.
fn digit_run_count(v: &Vec<char>, from: usize) -> (r: usize)
    requires
        from <= v@.len(),
    ensures
        r == digit_run(v@, from as int),
        from + r <= v@.len(),
{
    let mut i: usize = from;
    while i < v.len() && crate::text::char_is_numeric(v[i])
        invariant
            from <= i <= v@.len(),
            digit_run(v@, from as int) == i - from + digit_run(v@, i as int),
        decreases v@.len() - i,
    {
        i = i + 1;
    }
    i - from
}

/// Count the run of characters other than `')'` starting at `from`.
fn plain_run_count(v: &Vec<char>, from: usize) -> (r: usize)
    requires
        from <= v@.len(),
    ensures
        r == plain_run(v@, from as int),
        from + r <= v@.len(),
{
    let mut i: usize = from;
    while i < v.len() && v[i] != ')'
        invariant
            from <= i <= v@.len(),
            plain_run(v@, from as int) == i - from + plain_run(v@, i as int),
        decreases v@.len() - i,
    {
        i = i + 1;
    }
    i - from
}

/// Whether every character of the line is whitespace.
fn line_is_blank(line: &Vec<char>) -> (r: bool)
    ensures
        r == all_white(line@),
{
    let mut i: usize = 0;
    while i < line.len()
        invariant
            i <= line@.len(),
            forall|j: int| 0 <= j < i ==> crate::text::white_char(line@[j]),
        decreases line@.len() - i,
    {
        if !crate::text::char_is_white(line[i]) {
            return false;
        }
        i = i + 1;
    }
    true
}

/// The role of the nearest prior fence token in the container.
fn find_latest_fence(container: &Vec<BlockToken>) -> (r: Option<CodeBlock>)
    ensures
        r == latest_fence(btoks(container@)),
{
    let mut j: usize = container.len();
    proof {
        assert(btoks(container@).take(container@.len() as int) =~= btoks(container@));
    }
    while j > 0
        invariant
            j <= container@.len(),
            latest_fence(btoks(container@)) == latest_fence(btoks(container@).take(j as int)),
        decreases j,
    {
        let ghost pre = btoks(container@).take(j as int);
        proof {
            assert(pre.drop_last() =~= btoks(container@).take(j - 1));
            assert(pre.last() == container@[j - 1]@);
        }
        match &container[j - 1] {
            BlockToken::CodeBlock(c) => {
                return Option::Some(*c);
            },
            _ => {},
        }
        j = j - 1;
    }
    proof {
        assert(btoks(container@).take(0) =~= Seq::<BTokM>::empty());
    }
    Option::None
}

/// The position of the nearest prior blockquote token in the container.
fn find_latest_quote(container: &Vec<BlockToken>) -> (r: Option<usize>)
    ensures
        match r {
            Option::Some(qi) => latest_quote(btoks(container@)) == Option::Some(qi as int)
                && qi < container@.len() && (container@[qi as int] matches BlockToken::Blockquote(
                v,
            )),
            Option::None => latest_quote(btoks(container@)) == Option::<int>::None,
        },
{
    let mut j: usize = container.len();
    proof {
        assert(btoks(container@).take(container@.len() as int) =~= btoks(container@));
    }
    while j > 0
        invariant
            j <= container@.len(),
            latest_quote(btoks(container@)) == latest_quote(btoks(container@).take(j as int)),
        decreases j,
    {
        let ghost pre = btoks(container@).take(j as int);
        proof {
            assert(pre.drop_last() =~= btoks(container@).take(j - 1));
            assert(pre.last() == container@[j - 1]@);
        }
        match &container[j - 1] {
            BlockToken::Blockquote(v) => {
                return Option::Some(j - 1);
            },
            _ => {},
        }
        j = j - 1;
    }
    proof {
        assert(btoks(container@).take(0) =~= Seq::<BTokM>::empty());
    }
    Option::None
}

/// Tokenize a line whose first character is `'#'` as a heading, degrading
/// to the fallback pair when the hash run is too long or no space follows.
fn tokenize_heading(line: &Vec<char>, container: &mut Vec<BlockToken>)
    ensures
        btoks(final(container)@) == btoks(old(container)@) + heading_toks(line@),
{
    let k = run_count(line, 0, '#');
    if 1 <= k && k <= 6 && k < line.len() && line[k] == ' ' {
        let ghost t0 = container@;
        let value = crate::text::string_from_range(line, k + 1, line.len());
        let tok = BlockToken::Heading(HeadingToken { level: k, value });
        container.push(tok);
        proof {
            lemma_btoks_push(t0, tok);
            assert(value@ =~= line@.skip(k + 1));
            assert(btoks(container@) =~= btoks(t0) + heading_toks(line@));
        }
    } else {
        push_fallback(line, container);
    }
}

/// Tokenize a line whose first character is `'_'` as a horizontal rule,
/// degrading to the fallback pair on any other shape.
fn tokenize_horizontal_line(line: &Vec<char>, container: &mut Vec<BlockToken>)
    ensures
        btoks(final(container)@) == btoks(old(container)@) + hr_toks(line@),
{
    let mut i: usize = 0;
    while i < line.len()
        invariant
            i <= line@.len(),
            container@ == old(container)@,
            forall|j: int| 0 <= j < i ==> line@[j] == '_' || ascii_white(line@[j]),
        decreases line@.len() - i,
    {
        let c = line[i];
        if !(c == '_' || c == ' ' || c == '\t' || c == '\n' || c == '\u{c}' || c == '\r') {
            proof {
                assert(!(line@[i as int] == '_' || ascii_white(line@[i as int])));
            }
            push_fallback(line, container);
            return;
        }
        i = i + 1;
    }
    proof {
        assert(forall|j: int| 0 <= j < line@.len() ==> line@[j] == '_' || ascii_white(line@[j]));
    }
    let k = run_count(line, 0, '_');
    if k == 3 {
        let ghost t0 = container@;
        container.push(BlockToken::Hr(HrToken::Simple));
        proof {
            lemma_btoks_push(t0, BlockToken::Hr(HrToken::Simple));
            assert(btoks(container@) =~= btoks(t0) + hr_toks(line@));
        }
    } else if k == 4 {
        let ghost t0 = container@;
        container.push(BlockToken::Hr(HrToken::Bold));
        proof {
            lemma_btoks_push(t0, BlockToken::Hr(HrToken::Bold));
            assert(btoks(container@) =~= btoks(t0) + hr_toks(line@));
        }
    } else {
        push_fallback(line, container);
    }
}

/// Tokenize a line whose first character is `'>'` as an open blockquote,
/// degrading to the fallback pair when no space follows. Returns whether
/// the blockquote opened, which sets the continuation flag.
fn tokenize_blockquote(line: &Vec<char>, container: &mut Vec<BlockToken>) -> (opened: bool)
    ensures
        btoks(final(container)@) == btoks(old(container)@) + quote_toks(line@),
        opened == quote_ok(line@),
{
    if line.len() >= 2 && line[0] == '>' && line[1] == ' ' {
        let ghost t0 = container@;
        let mut value = String::new();
        value.append("<span>");
        let inner = crate::text::string_from_range(line, 2, line.len());
        value.append(inner.as_str());
        value.append("</span>");
        let tok = BlockToken::Blockquote(value);
        container.push(tok);
        proof {
            lemma_btoks_push(t0, tok);
            assert(inner@ =~= line@.skip(2));
            assert(value@ =~= span_wrap(line@.skip(2)));
            assert(btoks(container@) =~= btoks(t0) + quote_toks(line@));
        }
        true
    } else {
        push_fallback(line, container);
        false
    }
}

/// `lists_model` of an update is the pointwise update of `lists_model`.
proof fn lemma_lists_model_update(ls: Seq<ListToken>, i: int, l: ListToken)
    requires
        0 <= i < ls.len(),
    ensures
        lists_model(ls.update(i, l)) == lists_model(ls).update(i, list_model(l)),
{
    lemma_lists_model(ls);
    lemma_lists_model(ls.update(i, l));
    assert(lists_model(ls.update(i, l)) =~= lists_model(ls).update(i, list_model(l)));
}

/// `lists_model` of a push is the pointwise push of `lists_model`.
proof fn lemma_lists_model_push(ls: Seq<ListToken>, l: ListToken)
    ensures
        lists_model(ls.push(l)) == lists_model(ls).push(list_model(l)),
{
    lemma_lists_model(ls);
    lemma_lists_model(ls.push(l));
    assert(lists_model(ls.push(l)) =~= lists_model(ls).push(list_model(l)));
}

/// Parse a bulleted-family marker in executable code.
fn parse_bullet_marker(line: &Vec<char>, n: usize) -> (r: Option<(ListType, ListMeta, usize)>)
    requires
        n < line@.len(),
        line@[n as int] == '-',
    ensures
        match r {
            Option::Some(p) => parse_bullet(line@, n as int) == Option::Some(
                ParsedMarker { kind: p.0@, meta: p.1, content_from: p.2 as int },
            ) && p.2 <= line@.len(),
            Option::None => parse_bullet(line@, n as int) == Option::<ParsedMarker>::None,
        },
{
    let rem = line.len() - n;
    if rem >= 2 && line[n + 1] == ' ' {
        Option::Some((ListType::Bullet(BulletType::Default), ListMeta::Plain, n + 2))
    } else if rem >= 5 && line[n + 1] == '[' && (line[n + 2] == 'x' || line[n + 2] == 'X' || line[n
        + 2] == ' ') && line[n + 3] == ']' && line[n + 4] == ' ' {
        let meta = if line[n + 2] == ' ' {
            ListMeta::Unchecked
        } else {
            ListMeta::Checked
        };
        Option::Some((ListType::Todo, meta, n + 5))
    } else if rem >= 2 && line[n + 1] == '(' {
        let m = plain_run_count(line, n + 2);
        if m <= 10 && n + 2 + m < line.len() && line[n + 2 + m] == ')' && n + 3 + m < line.len()
            && line[n + 3 + m] == ' ' {
            let name = crate::text::string_from_range(line, n + 2, n + 2 + m);
            Option::Some((ListType::Bullet(BulletType::Custom(name)), ListMeta::Plain, n + 4 + m))
        } else {
            Option::None
        }
    } else {
        Option::None
    }
}

/// Parse a numbered marker in executable code.
fn parse_numbered_marker(line: &Vec<char>, n: usize) -> (r: Option<(ListType, ListMeta, usize)>)
    requires
        n < line@.len(),
        crate::text::numeric_char(line@[n as int]),
    ensures
        match r {
            Option::Some(p) => parse_numbered(line@, n as int) == Option::Some(
                ParsedMarker { kind: p.0@, meta: p.1, content_from: p.2 as int },
            ) && p.2 <= line@.len(),
            Option::None => parse_numbered(line@, n as int) == Option::<ParsedMarker>::None,
        },
{
    let len = line.len();
    let d = digit_run_count(line, n);
    if n + d < len && line[n + d] == '.' && n + d + 1 < len && line[n + d + 1] == ' ' {
        Option::Some((ListType::Numbered, ListMeta::Plain, n + d + 2))
    } else {
        Option::None
    }
}

/// Parse an alphabetic marker in executable code.
fn parse_alpha_marker(line: &Vec<char>, n: usize, is_uppercase: bool) -> (r: Option<
    (ListType, ListMeta, usize),
>)
    requires
        n < line@.len(),
        crate::text::alpha_char(line@[n as int]),
        is_uppercase == crate::text::upper_char(line@[n as int]),
    ensures
        match r {
            Option::Some(p) => parse_alpha(line@, n as int) == Option::Some(
                ParsedMarker { kind: p.0@, meta: p.1, content_from: p.2 as int },
            ) && p.2 <= line@.len(),
            Option::None => parse_alpha(line@, n as int) == Option::<ParsedMarker>::None,
        },
{
    let len = line.len();
    let j = run_count(line, n + 1, 'i');
    let p = n + 1 + j;
    if p < len && (line[p] == '.' || line[p] == ')') && p + 1 < len && line[p + 1] == ' ' {
        let case = if is_uppercase {
            AlphaType::Upper
        } else {
            AlphaType::Lower
        };
        Option::Some((ListType::Alphabetic(case), ListMeta::Plain, p + 2))
    } else {
        Option::None
    }
}

/// Enter a parsed list item into the container, as `add_list_item` says.
fn add_list_item_exec(
    line: &Vec<char>,
    container: &mut Vec<BlockToken>,
    nesting: usize,
    kind: ListType,
    meta: ListMeta,
    content_from: usize,
)
    requires
        content_from <= line@.len(),
    ensures
        btoks(final(container)@) == add_list_item(
            btoks(old(container)@),
            nesting as int,
            kind@,
            meta,
            line@.skip(content_from as int),
            line@,
        ),
{
    let ghost t0 = container@;
    let content = crate::text::string_from_range(line, content_from, line.len());
    proof {
        assert(content@ =~= line@.skip(content_from as int));
    }
    let item = ListItem { value: ItemValue::Value(content), if_meta: meta };
    let ghost itemm = ItemM { value: ItemValM::Lit(line@.skip(content_from as int)), meta: meta };
    proof {
        assert(item@ == itemm);
    }
    if container.len() == 0 {
        if nesting > 0 {
            push_fallback(line, container);
        } else {
            let mut items: Vec<ListItem> = Vec::new();
            items.push(item);
            let l = ListToken { kind: kind, items, nests: Vec::new() };
            let tok = BlockToken::List(l);
            proof {
                assert(l.items@ =~= seq![item]);
                assert(l.items@.map_values(|it: ListItem| it@) =~= seq![itemm]);
                assert(list_model(l) == singleton_list(kind@, meta, content@));
                lemma_btoks_push(t0, tok);
            }
            container.push(tok);
            proof {
                assert(btoks(container@) =~= add_list_item(
                    btoks(t0),
                    nesting as int,
                    kind@,
                    meta,
                    line@.skip(content_from as int),
                    line@,
                ));
            }
        }
        return;
    }
    let ghost lastm = btoks(t0).last();
    proof {
        assert(btoks(t0)[t0.len() - 1] == t0[t0.len() - 1]@);
    }
    let tok = container.pop().unwrap();
    match tok {
        BlockToken::List(mut l) => {
            let ghost lm = list_model(l);
            proof {
                assert(lastm == BTokM::List(lm));
                lemma_lists_model(l.nests@);
            }
            if nesting > 0 {
                if l.nests.len() > 0 {
                    let ghost nests0 = l.nests@;
                    let child = l.nests.pop().unwrap();
                    proof {
                        assert(child == nests0.last());
                        assert(lm.nests.last() == list_model(child));
                    }
                    if child.kind == kind {
                        let ghost childm = list_model(child);
                        let mut child2 = child;
                        child2.items.push(item);
                        let ghost childm2 = list_model(child2);
                        proof {
                            assert(child2.items@.map_values(|it: ListItem| it@) =~= childm.items.push(
                                itemm,
                            ));
                            assert(childm2 == ListM {
                                kind: childm.kind,
                                items: childm.items.push(itemm),
                                nests: childm.nests,
                            });
                        }
                        l.nests.push(child2);
                        proof {
                            assert(l.nests@ =~= nests0.update(nests0.len() - 1, child2));
                            lemma_lists_model_update(nests0, nests0.len() - 1, child2);
                        }
                        let l2 = ListToken { kind: l.kind, items: l.items, nests: l.nests };
                        container.push(BlockToken::List(l2));
                        proof {
                            assert(container@ =~= t0.update(
                                t0.len() - 1,
                                BlockToken::List(l2),
                            ));
                            lemma_btoks_update(t0, t0.len() - 1, BlockToken::List(l2));
                            assert(btoks(container@) =~= add_list_item(
                                btoks(t0),
                                nesting as int,
                                kind@,
                                meta,
                                line@.skip(content_from as int),
                                line@,
                            ));
                        }
                    } else {
                        l.nests.push(child);
                        proof {
                            assert(l.nests@ =~= nests0);
                            assert(l.nests@ == nests0);
                        }
                        let idx = l.nests.len();
                        l.items.push(
                            ListItem { value: ItemValue::Nesting(idx), if_meta: ListMeta::Plain },
                        );
                        let mut citems: Vec<ListItem> = Vec::new();
                        citems.push(item);
                        let newchild = ListToken { kind: kind, items: citems, nests: Vec::new() };
                        proof {
                            assert(newchild.items@ =~= seq![item]);
                            assert(newchild.items@.map_values(|it: ListItem| it@) =~= seq![itemm]);
                            assert(list_model(newchild) == singleton_list(kind@, meta, content@));
                            lemma_lists_model_push(nests0, newchild);
                        }
                        l.nests.push(newchild);
                        let l2 = ListToken { kind: l.kind, items: l.items, nests: l.nests };
                        proof {
                            assert(l2.items@.map_values(|it: ListItem| it@) =~= lm.items.push(
                                ItemM {
                                    value: ItemValM::Nest(lm.nests.len() as int),
                                    meta: ListMeta::Plain,
                                },
                            ));
                        }
                        container.push(BlockToken::List(l2));
                        proof {
                            assert(container@ =~= t0.update(
                                t0.len() - 1,
                                BlockToken::List(l2),
                            ));
                            lemma_btoks_update(t0, t0.len() - 1, BlockToken::List(l2));
                            assert(btoks(container@) =~= add_list_item(
                                btoks(t0),
                                nesting as int,
                                kind@,
                                meta,
                                line@.skip(content_from as int),
                                line@,
                            ));
                        }
                    }
                } else {
                    let idx = l.nests.len();
                    let ghost nests0 = l.nests@;
                    l.items.push(
                        ListItem { value: ItemValue::Nesting(idx), if_meta: ListMeta::Plain },
                    );
                    let mut citems: Vec<ListItem> = Vec::new();
                    citems.push(item);
                    let newchild = ListToken { kind: kind, items: citems, nests: Vec::new() };
                    proof {
                        assert(newchild.items@ =~= seq![item]);
                        assert(newchild.items@.map_values(|it: ListItem| it@) =~= seq![itemm]);
                        assert(list_model(newchild) == singleton_list(kind@, meta, content@));
                        lemma_lists_model_push(nests0, newchild);
                    }
                    l.nests.push(newchild);
                    let l2 = ListToken { kind: l.kind, items: l.items, nests: l.nests };
                    proof {
                        assert(l2.items@.map_values(|it: ListItem| it@) =~= lm.items.push(
                            ItemM {
                                value: ItemValM::Nest(lm.nests.len() as int),
                                meta: ListMeta::Plain,
                            },
                        ));
                    }
                    container.push(BlockToken::List(l2));
                    proof {
                        assert(container@ =~= t0.update(t0.len() - 1, BlockToken::List(l2)));
                        lemma_btoks_update(t0, t0.len() - 1, BlockToken::List(l2));
                        assert(btoks(container@) =~= add_list_item(
                            btoks(t0),
                            nesting as int,
                            kind@,
                            meta,
                            line@.skip(content_from as int),
                            line@,
                        ));
                    }
                }
            } else {
                if l.kind == kind {
                    l.items.push(item);
                    let l2 = ListToken { kind: l.kind, items: l.items, nests: l.nests };
                    proof {
                        assert(l2.items@.map_values(|it: ListItem| it@) =~= lm.items.push(itemm));
                    }
                    container.push(BlockToken::List(l2));
                    proof {
                        assert(container@ =~= t0.update(t0.len() - 1, BlockToken::List(l2)));
                        lemma_btoks_update(t0, t0.len() - 1, BlockToken::List(l2));
                        assert(btoks(container@) =~= add_list_item(
                            btoks(t0),
                            nesting as int,
                            kind@,
                            meta,
                            line@.skip(content_from as int),
                            line@,
                        ));
                    }
                } else {
                    container.push(BlockToken::List(l));
                    proof {
                        assert(container@ =~= t0);
                    }
                    let mut items: Vec<ListItem> = Vec::new();
                    items.push(item);
                    let newlist = ListToken { kind: kind, items, nests: Vec::new() };
                    let tok2 = BlockToken::List(newlist);
                    proof {
                        assert(newlist.items@ =~= seq![item]);
                        assert(newlist.items@.map_values(|it: ListItem| it@) =~= seq![itemm]);
                        assert(list_model(newlist) == singleton_list(kind@, meta, content@));
                        lemma_btoks_push(t0, tok2);
                    }
                    container.push(tok2);
                    proof {
                        assert(btoks(container@) =~= add_list_item(
                            btoks(t0),
                            nesting as int,
                            kind@,
                            meta,
                            line@.skip(content_from as int),
                            line@,
                        ));
                    }
                }
            }
        },
        other => {
            container.push(other);
            proof {
                assert(container@ =~= t0);
            }
            if nesting > 0 {
                push_fallback(line, container);
            } else {
                let mut items: Vec<ListItem> = Vec::new();
                items.push(item);
                let newlist = ListToken { kind: kind, items, nests: Vec::new() };
                let tok2 = BlockToken::List(newlist);
                proof {
                    assert(newlist.items@ =~= seq![item]);
                    assert(newlist.items@.map_values(|it: ListItem| it@) =~= seq![itemm]);
                    assert(list_model(newlist) == singleton_list(kind@, meta, content@));
                    lemma_btoks_push(t0, tok2);
                }
                container.push(tok2);
                proof {
                    assert(btoks(container@) =~= add_list_item(
                        btoks(t0),
                        nesting as int,
                        kind@,
                        meta,
                        line@.skip(content_from as int),
                        line@,
                    ));
                }
            }
        },
    }
}

/// Tokenize a line whose marker family is bulleted: `- `, checkbox or
/// custom bullet, at indentation `nesting`.
fn tokenize_bulleted_list(line: &Vec<char>, container: &mut Vec<BlockToken>, nesting: usize)
    requires
        nesting < line@.len(),
        line@[nesting as int] == '-',
    ensures
        btoks(final(container)@) == list_step(btoks(old(container)@), line@, nesting as int),
{
    match parse_bullet_marker(line, nesting) {
        Option::Some(p) => {
            add_list_item_exec(line, container, nesting, p.0, p.1, p.2);
        },
        Option::None => {
            push_fallback(line, container);
        },
    }
}

/// Tokenize a line whose marker family is numbered, at indentation
/// `nesting`.
fn tokenize_numbered_list(line: &Vec<char>, container: &mut Vec<BlockToken>, nesting: usize)
    requires
        nesting < line@.len(),
        line@[nesting as int] != '-',
        crate::text::numeric_char(line@[nesting as int]),
    ensures
        btoks(final(container)@) == list_step(btoks(old(container)@), line@, nesting as int),
{
    match parse_numbered_marker(line, nesting) {
        Option::Some(p) => {
            add_list_item_exec(line, container, nesting, p.0, p.1, p.2);
        },
        Option::None => {
            push_fallback(line, container);
        },
    }
}

/// Tokenize a line whose marker family is alphabetic, at indentation
/// `nesting`; `is_uppercase` carries the dispatch character's case.
fn tokenize_alpha_list(
    line: &Vec<char>,
    container: &mut Vec<BlockToken>,
    is_uppercase: bool,
    nesting: usize,
)
    requires
        nesting < line@.len(),
        line@[nesting as int] != '-',
        !crate::text::numeric_char(line@[nesting as int]),
        crate::text::alpha_char(line@[nesting as int]),
        is_uppercase == crate::text::upper_char(line@[nesting as int]),
    ensures
        btoks(final(container)@) == list_step(btoks(old(container)@), line@, nesting as int),
{
    match parse_alpha_marker(line, nesting, is_uppercase) {
        Option::Some(p) => {
            add_list_item_exec(line, container, nesting, p.0, p.1, p.2);
        },
        Option::None => {
            push_fallback(line, container);
        },
    }
}

/// Tokenize a line whose first character is a backtick as a code fence,
/// valid only as a line of exactly three backticks; the fence's role
/// toggles against the nearest prior fence token.
fn tokenize_codeblock(line: &Vec<char>, container: &mut Vec<BlockToken>)
    ensures
        btoks(final(container)@) == btoks(old(container)@) + fence_toks(
            line@,
            latest_fence(btoks(old(container)@)),
        ),
{
    if line.len() == 3 && line[0] == '`' && line[1] == '`' && line[2] == '`' {
        let last = find_latest_fence(container);
        let role = match last {
            Option::Some(CodeBlock::Open) => CodeBlock::Close,
            _ => CodeBlock::Open,
        };
        let ghost t0 = container@;
        container.push(BlockToken::CodeBlock(role));
        proof {
            lemma_btoks_push(t0, BlockToken::CodeBlock(role));
            assert(btoks(container@) =~= btoks(t0) + fence_toks(line@, latest_fence(btoks(t0))));
        }
    } else {
        push_fallback(line, container);
    }
}

/// Dispatch a list line on the family its first marker character selects.
fn list_dispatch(line: &Vec<char>, container: &mut Vec<BlockToken>, n: usize)
    requires
        n < line@.len(),
    ensures
        btoks(final(container)@) == list_step(btoks(old(container)@), line@, n as int),
{
    let c = line[n];
    if c == '-' {
        tokenize_bulleted_list(line, container, n);
    } else if crate::text::char_is_numeric(c) {
        tokenize_numbered_list(line, container, n);
    } else if crate::text::char_is_alpha(c) {
        let up = crate::text::char_is_upper(c);
        tokenize_alpha_list(line, container, up, n);
    } else {
        push_fallback(line, container);
    }
}

/// Dispatch a non-blank line on its first character.
fn dispatch_exec(line: &Vec<char>, container: &mut Vec<BlockToken>, quote_on: bool) -> (r: bool)
    requires
        line@.len() > 0,
    ensures
        ({
            let st2 = dispatch_step(ScanM { toks: btoks(old(container)@), quote_on }, line@);
            btoks(final(container)@) == st2.toks && r == st2.quote_on
        }),
{
    let c = line[0];
    if c == '#' {
        tokenize_heading(line, container);
        quote_on
    } else if c == '_' {
        tokenize_horizontal_line(line, container);
        quote_on
    } else if c == '>' {
        tokenize_blockquote(line, container)
    } else if c == '`' {
        tokenize_codeblock(line, container);
        quote_on
    } else if c == ' ' {
        let k = run_count(line, 0, ' ');
        if k % 4 == 0 && k < line.len() {
            list_dispatch(line, container, k);
        } else {
            push_fallback(line, container);
        }
        quote_on
    } else if c == '\t' {
        let k = run_count(line, 0, '\t');
        if k < line.len() {
            list_dispatch(line, container, k);
        } else {
            push_fallback(line, container);
        }
        quote_on
    } else if c == '-' || crate::text::char_is_numeric(c) || crate::text::char_is_alpha(c) {
        list_dispatch(line, container, 0);
        quote_on
    } else {
        push_fallback(line, container);
        quote_on
    }
}

/// Handle a line after any alignment prefix was stripped: append a
/// continuation line to the nearest open blockquote, drop an empty
/// remainder, and dispatch anything else.
fn rest_step_exec(line: &Vec<char>, container: &mut Vec<BlockToken>, quote_on: bool) -> (r: bool)
    ensures
        ({
            let st2 = rest_step(ScanM { toks: btoks(old(container)@), quote_on }, line@);
            btoks(final(container)@) == st2.toks && r == st2.quote_on
        }),
{
    if quote_on {
        match find_latest_quote(container) {
            Option::Some(qi) => {
                let ghost t0 = container@;
                let newv = match &container[qi] {
                    BlockToken::Blockquote(v) => {
                        let mut s = v.clone();
                        s.append("<br>\n<span>");
                        let linestr = crate::text::string_of(line);
                        s.append(linestr.as_str());
                        s.append("</span>");
                        s
                    },
                    _ => {
                        proof {
                            assert(false);
                        }
                        String::new()
                    },
                };
                let tok = BlockToken::Blockquote(newv);
                container.set(qi, tok);
                proof {
                    lemma_btoks_update(t0, qi as int, tok);
                    let st2 = rest_step(ScanM { toks: btoks(t0), quote_on }, line@);
                    assert(newv@ =~= quote_cont(btoks(t0)[qi as int]->Quote_0, line@));
                    assert(btoks(container@) =~= st2.toks);
                }
                true
            },
            Option::None => {
                if line.len() == 0 {
                    quote_on
                } else {
                    dispatch_exec(line, container, quote_on)
                }
            },
        }
    } else {
        if line.len() == 0 {
            quote_on
        } else {
            dispatch_exec(line, container, quote_on)
        }
    }
}

/// Scan one line: a blank line yields a paragraph break and clears the
/// continuation flag; an alignment prefix yields its marker and the
/// remainder falls through; everything else goes to the dispatcher.
fn scan_line(line: &Vec<char>, container: &mut Vec<BlockToken>, quote_on: bool) -> (r: bool)
    ensures
        ({
            let st2 = line_step(ScanM { toks: btoks(old(container)@), quote_on }, line@);
            btoks(final(container)@) == st2.toks && r == st2.quote_on
        }),
{
    if line_is_blank(line) {
        let ghost t0 = container@;
        container.push(BlockToken::P);
        proof {
            lemma_btoks_push(t0, BlockToken::P);
        }
        return false;
    }
    if line.len() >= 3 && line[0] == '|' && line[2] == ' ' {
        let c = line[1];
        let a = if c == '<' {
            Option::Some(AlignmentToken::Left)
        } else if c == '>' {
            Option::Some(AlignmentToken::Right)
        } else if c == '=' {
            Option::Some(AlignmentToken::Center)
        } else if c == '-' {
            Option::Some(AlignmentToken::Justify)
        } else {
            Option::None
        };
        if let Option::Some(mark) = a {
            let ghost t0 = container@;
            container.push(BlockToken::Alignment(mark));
            proof {
                lemma_btoks_push(t0, BlockToken::Alignment(mark));
            }
            let rest = crate::text::vec_from_range(line, 3, line.len());
            proof {
                assert(rest@ =~= line@.skip(3));
            }
            let r = rest_step_exec(&rest, container, quote_on);
            return r;
        }
    }
    rest_step_exec(line, container, quote_on)
}

/// Scan all lines into block tokens, appending to the container. The
/// result is exactly what `spec_block_scan` says of the lines' characters.
pub fn block_tokenization(container: &mut Vec<BlockToken>, input_lines: &Vec<&str>)
    ensures
        btoks(final(container)@) == spec_block_scan(
            btoks(old(container)@),
            line_views(input_lines@),
        ),
{
    let ghost l = line_views(input_lines@);
    let ghost t0 = container@;
    let mut quote_on: bool = false;
    let mut i: usize = 0;
    while i < input_lines.len()
        invariant
            i <= input_lines@.len(),
            l == line_views(input_lines@),
            scan_lines(ScanM { toks: btoks(container@), quote_on }, l, i as int) == scan_lines(
                ScanM { toks: btoks(t0), quote_on: false },
                l,
                0,
            ),
        decreases input_lines@.len() - i,
    {
        let line = crate::text::chars_of(input_lines[i]);
        proof {
            assert(line@ == l[i as int]);
        }
        let q2 = scan_line(&line, container, quote_on);
        quote_on = q2;
        i = i + 1;
    }
}

} // verus!
