//! A lightweight markup tokenizer: a block-level scanner, an inline-level
//! resolver, and an assembler that merges the two passes into one document
//! token sequence, together with a plain template-expansion renderer.

pub mod block_token;
pub mod inline_token;
pub mod text;

use vstd::prelude::*;

use block_token::{
    btoks, list_model, spec_block_scan, AlphaType, BTokM, BlockToken, BulletM, CodeBlock,
    HrToken, ItemValM, KindM, ListM, ListMeta, ListToken, ListType,
};
use inline_token::{inline_tokenization, itoks, resolve, ITokM, InlineToken, InlineTokenPos};

verus! {

/// One resolved list: its kind, its items — checkbox metadata paired with
/// the item's resolved inline tokens, empty for a nesting item — the index
/// this list holds in its parent's `nests`, and its resolved child lists.
#[derive(Debug, PartialEq)]
pub struct SecList {
    pub kind: ListType,
    pub items: Vec<(ListMeta, Vec<InlineToken>)>,
    pub is_nested: usize,
    pub nests: Vec<SecList>,
}

/// One document token: a block token with every text payload replaced by
/// its resolved inline token sequence.
#[derive(Debug, PartialEq)]
pub enum SecondaryToken {
    Br,
    Hr(HrToken),
    P,
    List(SecList),
    CodeBlock(CodeBlock),
    Text(Vec<InlineToken>),
    Form(Vec<InlineToken>),
    Table(Vec<InlineToken>),
    Blockquote(Vec<InlineToken>),
    Heading(usize, Vec<InlineToken>),
}

/// What the renderer does after reading a token's boundary role: stop on
/// an unmatched trailing opener, or go on, knowing whether it opens.
pub enum Action {
    Break,
    Continue(bool),
}

// ---------------------------------------------------------------------------
// Models.
// ---------------------------------------------------------------------------

/// Model of a resolved list.
pub struct SListM {
    pub kind: KindM,
    pub items: Seq<(ListMeta, Seq<ITokM>)>,
    pub is_nested: int,
    pub nests: Seq<SListM>,
}

/// Model of a document token.
pub enum STokM {
    Br,
    Hr(HrToken),
    Par,
    List(SListM),
    Fence(CodeBlock),
    Text(Seq<ITokM>),
    Form(Seq<ITokM>),
    Table(Seq<ITokM>),
    Quote(Seq<ITokM>),
    Heading(int, Seq<ITokM>),
}

/// Model of a resolved list's item pairs.
pub open spec fn sec_items_model(items: Seq<(ListMeta, Vec<InlineToken>)>) -> Seq<
    (ListMeta, Seq<ITokM>),
> {
    items.map_values(|p: (ListMeta, Vec<InlineToken>)| (p.0, itoks(p.1@)))
}

/// Models of a sequence of resolved lists, in order.
pub open spec fn slists_model(ls: Seq<SecList>) -> Seq<SListM>
    decreases ls, 0int,
{
    if ls.len() == 0 {
        Seq::empty()
    } else {
        seq![slist_model(ls[0])] + slists_model(ls.skip(1))
    }
}

/// Model of a resolved list, recursively over its child lists.
pub open spec fn slist_model(l: SecList) -> SListM
    decreases l, 1int,
{
    SListM {
        kind: l.kind@,
        items: sec_items_model(l.items@),
        is_nested: l.is_nested as int,
        nests: slists_model(l.nests@),
    }
}

/// `slists_model` is the pointwise model of its argument.
pub proof fn lemma_slists_model(ls: Seq<SecList>)
    ensures
        slists_model(ls).len() == ls.len(),
        forall|i: int| 0 <= i < ls.len() ==> slists_model(ls)[i] == slist_model(ls[i]),
    decreases ls.len(),
{
    if ls.len() > 0 {
        lemma_slists_model(ls.skip(1));
        assert forall|i: int| 0 <= i < ls.len() implies slists_model(ls)[i] == slist_model(
            ls[i],
        ) by {
            if i > 0 {
                assert(slists_model(ls)[i] == slists_model(ls.skip(1))[i - 1]);
                assert(ls.skip(1)[i - 1] == ls[i]);
            }
        }
    }
}

/// `slists_model` of a push is the pointwise push of `slists_model`.
pub proof fn lemma_slists_model_push(ls: Seq<SecList>, l: SecList)
    ensures
        slists_model(ls.push(l)) == slists_model(ls).push(slist_model(l)),
{
    lemma_slists_model(ls);
    lemma_slists_model(ls.push(l));
    assert(slists_model(ls.push(l)) =~= slists_model(ls).push(slist_model(l)));
}

impl View for SecList {
    type V = SListM;

    open spec fn view(&self) -> SListM {
        slist_model(*self)
    }
}

impl View for SecondaryToken {
    type V = STokM;

    open spec fn view(&self) -> STokM {
        match self {
            SecondaryToken::Br => STokM::Br,
            SecondaryToken::Hr(h) => STokM::Hr(*h),
            SecondaryToken::P => STokM::Par,
            SecondaryToken::List(l) => STokM::List(slist_model(*l)),
            SecondaryToken::CodeBlock(c) => STokM::Fence(*c),
            SecondaryToken::Text(v) => STokM::Text(itoks(v@)),
            SecondaryToken::Form(v) => STokM::Form(itoks(v@)),
            SecondaryToken::Table(v) => STokM::Table(itoks(v@)),
            SecondaryToken::Blockquote(v) => STokM::Quote(itoks(v@)),
            SecondaryToken::Heading(k, v) => STokM::Heading(*k as int, itoks(v@)),
        }
    }
}

/// The models of a sequence of document tokens.
pub open spec fn stoks(s: Seq<SecondaryToken>) -> Seq<STokM> {
    s.map_values(|t: SecondaryToken| t@)
}

// ---------------------------------------------------------------------------
// List mining.
// ---------------------------------------------------------------------------

/// Walk a list's items in order, resolving literal items and mining each
/// nesting item's child depth-first. A nesting reference outside the
/// child range contributes an empty item and no child.
pub open spec fn mine_items(
    l: ListM,
    i: int,
    acc_items: Seq<(ListMeta, Seq<ITokM>)>,
    acc_nests: Seq<SListM>,
) -> (Seq<(ListMeta, Seq<ITokM>)>, Seq<SListM>)
    decreases l, l.items.len() - i,
{
    if i < 0 || i >= l.items.len() {
        (acc_items, acc_nests)
    } else {
        match l.items[i].value {
            ItemValM::Lit(v) => mine_items(
                l,
                i + 1,
                acc_items.push((l.items[i].meta, resolve(v))),
                acc_nests,
            ),
            ItemValM::Nest(j) => {
                if 0 <= j < l.nests.len() {
                    let m = mine(l.nests[j]);
                    let child = SListM {
                        kind: m.kind,
                        items: m.items,
                        is_nested: j,
                        nests: m.nests,
                    };
                    mine_items(
                        l,
                        i + 1,
                        acc_items.push((l.items[i].meta, Seq::empty())),
                        acc_nests.push(child),
                    )
                } else {
                    mine_items(l, i + 1, acc_items.push((l.items[i].meta, Seq::empty())), acc_nests)
                }
            },
        }
    }
}

/// Mine one list token into its resolved form.
pub open spec fn mine(l: ListM) -> SListM
    decreases l, l.items.len() + 1,
{
    let r = mine_items(l, 0, Seq::empty(), Seq::empty());
    SListM { kind: l.kind, items: r.0, is_nested: 0, nests: r.1 }
}

/// Mine one list token into its resolved form: literal items are resolved,
/// nesting items record their target and the corresponding child list is
/// mined depth-first into `nests`.
pub fn list_miner(subject_list: &ListToken) -> (r: SecList)
    ensures
        r@ == mine(list_model(*subject_list)),
    decreases *subject_list,
{
    let ghost lm = list_model(*subject_list);
    proof {
        block_token::lemma_lists_model(subject_list.nests@);
    }
    let mut items: Vec<(ListMeta, Vec<InlineToken>)> = Vec::new();
    let mut nests: Vec<SecList> = Vec::new();
    let mut i: usize = 0;
    proof {
        assert(sec_items_model(items@) =~= Seq::<(ListMeta, Seq<ITokM>)>::empty());
        assert(slists_model(nests@) =~= Seq::<SListM>::empty());
    }
    while i < subject_list.items.len()
        invariant
            i <= subject_list.items@.len(),
            lm == list_model(*subject_list),
            mine_items(lm, i as int, sec_items_model(items@), slists_model(nests@))
                == mine_items(lm, 0, Seq::empty(), Seq::empty()),
        decreases subject_list.items@.len() - i,
    {
        let ghost acc0 = sec_items_model(items@);
        let ghost nacc0 = slists_model(nests@);
        let item = &subject_list.items[i];
        proof {
            assert(item@ == lm.items[i as int]);
        }
        match &item.value {
            block_token::ItemValue::Value(v) => {
                let tokens = inline_tokenization(v.clone());
                items.push((item.if_meta, tokens));
                proof {
                    assert(sec_items_model(items@) =~= acc0.push(
                        (lm.items[i as int].meta, resolve(v@)),
                    ));
                }
            },
            block_token::ItemValue::Nesting(index) => {
                let idx = *index;
                if idx < subject_list.nests.len() {
                    proof {
                        assert(decreases_to!(*subject_list => subject_list.nests@[idx as int]));
                    }
                    let mined = list_miner(&subject_list.nests[idx]);
                    let ghost minedm = slist_model(mined);
                    let child = SecList {
                        kind: mined.kind,
                        items: mined.items,
                        is_nested: idx,
                        nests: mined.nests,
                    };
                    proof {
                        assert(slist_model(child) == SListM {
                            kind: minedm.kind,
                            items: minedm.items,
                            is_nested: idx as int,
                            nests: minedm.nests,
                        });
                    }
                    let ghost nests0 = nests@;
                    nests.push(child);
                    items.push((item.if_meta, Vec::new()));
                    proof {
                        block_token::lemma_lists_model(subject_list.nests@);
                        assert(list_model(subject_list.nests@[idx as int]) == lm.nests[idx as int]);
                        lemma_slists_model_push(nests0, child);
                        assert(sec_items_model(items@) =~~= acc0.push(
                            (lm.items[i as int].meta, Seq::<ITokM>::empty()),
                        ));
                    }
                } else {
                    items.push((item.if_meta, Vec::new()));
                    proof {
                        block_token::lemma_lists_model(subject_list.nests@);
                        assert(sec_items_model(items@) =~~= acc0.push(
                            (lm.items[i as int].meta, Seq::<ITokM>::empty()),
                        ));
                    }
                }
            },
        }
        i = i + 1;
    }
    let r = SecList { kind: clone_list_type(&subject_list.kind), items, is_nested: 0, nests };
    r
}

/// An exact copy of a list kind.
fn clone_list_type(t: &ListType) -> (r: ListType)
    ensures
        r@ == t@,
{
    match t {
        ListType::Todo => ListType::Todo,
        ListType::Numbered => ListType::Numbered,
        ListType::Roman(c) => ListType::Roman(*c),
        ListType::Bullet(block_token::BulletType::Default) => ListType::Bullet(
            block_token::BulletType::Default,
        ),
        ListType::Bullet(block_token::BulletType::Custom(s)) => ListType::Bullet(
            block_token::BulletType::Custom(s.clone()),
        ),
        ListType::Alphabetic(c) => ListType::Alphabetic(*c),
    }
}

// ---------------------------------------------------------------------------
// Assembly.
// ---------------------------------------------------------------------------

/// The document tokens one block token contributes: text payloads are
/// resolved, lists are mined, paragraph breaks are dropped — paragraph
/// grouping is not implemented — and so are alignment markers and images.
pub open spec fn assemble_one(t: BTokM) -> Seq<STokM> {
    match t {
        BTokM::Br => seq![STokM::Br],
        BTokM::Par => Seq::empty(),
        BTokM::Hr(h) => seq![STokM::Hr(h)],
        BTokM::Text(v) => seq![STokM::Text(resolve(v))],
        BTokM::Form(v) => seq![STokM::Form(resolve(v))],
        BTokM::Table(v) => seq![STokM::Table(resolve(v))],
        BTokM::List(l) => seq![STokM::List(mine(l))],
        BTokM::Fence(c) => seq![STokM::Fence(c)],
        BTokM::Quote(v) => seq![STokM::Quote(resolve(v))],
        BTokM::Heading(k, v) => seq![STokM::Heading(k, resolve(v))],
        BTokM::Align(a) => Seq::empty(),
        BTokM::Image(v) => Seq::empty(),
    }
}

/// The document tokens of a whole block token sequence, in order.
pub open spec fn spec_assemble(toks: Seq<BTokM>) -> Seq<STokM>
    decreases toks.len(),
{
    if toks.len() == 0 {
        Seq::empty()
    } else {
        assemble_one(toks[0]) + spec_assemble(toks.skip(1))
    }
}

/// The whole pipeline on one input text: its lines scanned to block
/// tokens, and those assembled into document tokens.
pub open spec fn spec_tokenizer(s: Seq<char>) -> Seq<STokM> {
    spec_assemble(spec_block_scan(Seq::empty(), text::spec_lines(s)))
}

/// Tokenize an input text into its ordered document token sequence: split
/// into lines, scan the lines into block tokens, and assemble those with
/// every text payload resolved.
pub fn tokenizer(input: &str) -> (r: Vec<SecondaryToken>)
    ensures
        stoks(r@) == spec_tokenizer(input@),
{
    let chars = text::chars_of(input);
    let line_vecs = text::split_lines(&chars);
    let mut line_strs: Vec<String> = Vec::new();
    let mut i: usize = 0;
    while i < line_vecs.len()
        invariant
            i <= line_vecs@.len(),
            line_strs@.len() == i,
            forall|j: int| 0 <= j < i ==> line_strs@[j]@ == line_vecs@[j]@,
        decreases line_vecs@.len() - i,
    {
        line_strs.push(text::string_of(&line_vecs[i]));
        i = i + 1;
    }
    let mut input_lines: Vec<&str> = Vec::new();
    let mut j: usize = 0;
    while j < line_strs.len()
        invariant
            j <= line_strs@.len(),
            input_lines@.len() == j,
            forall|m: int| 0 <= m < j ==> input_lines@[m]@ == line_strs@[m]@,
        decreases line_strs@.len() - j,
    {
        input_lines.push(line_strs[j].as_str());
        j = j + 1;
    }
    proof {
        assert(block_token::line_views(input_lines@) =~= text::spec_lines(input@));
    }
    let mut block_tokens: Vec<BlockToken> = Vec::new();
    proof {
        assert(btoks(block_tokens@) =~= Seq::<BTokM>::empty());
    }
    block_token::block_tokenization(&mut block_tokens, &input_lines);
    let ghost bm = btoks(block_tokens@);
    let mut secondary_tokens: Vec<SecondaryToken> = Vec::new();
    let mut k: usize = 0;
    proof {
        assert(stoks(secondary_tokens@) =~= Seq::<STokM>::empty());
        assert(stoks(secondary_tokens@) + spec_assemble(bm) =~= spec_assemble(bm));
        assert(bm.skip(0) =~= bm);
    }
    while k < block_tokens.len()
        invariant
            k <= block_tokens@.len(),
            bm == btoks(block_tokens@),
            stoks(secondary_tokens@) + spec_assemble(bm.skip(k as int)) == spec_assemble(bm),
        decreases block_tokens@.len() - k,
    {
        let ghost s0 = stoks(secondary_tokens@);
        proof {
            assert(bm.skip(k as int)[0] == bm[k as int]);
            assert(bm.skip(k as int).skip(1) =~= bm.skip(k as int + 1));
            assert(bm[k as int] == block_tokens@[k as int]@);
        }
        match &block_tokens[k] {
            BlockToken::Br => {
                secondary_tokens.push(SecondaryToken::Br);
            },
            BlockToken::P => {},
            BlockToken::Hr(hr_token) => {
                secondary_tokens.push(SecondaryToken::Hr(*hr_token));
            },
            BlockToken::Blockquote(content) => {
                secondary_tokens.push(
                    SecondaryToken::Blockquote(inline_tokenization(content.clone())),
                );
            },
            BlockToken::Text(content) => {
                secondary_tokens.push(SecondaryToken::Text(inline_tokenization(content.clone())));
            },
            BlockToken::Form(content) => {
                secondary_tokens.push(SecondaryToken::Form(inline_tokenization(content.clone())));
            },
            BlockToken::Table(content) => {
                secondary_tokens.push(SecondaryToken::Table(inline_tokenization(content.clone())));
            },
            BlockToken::Heading(heading_token) => {
                secondary_tokens.push(
                    SecondaryToken::Heading(
                        heading_token.level,
                        inline_tokenization(heading_token.value.clone()),
                    ),
                );
            },
            BlockToken::CodeBlock(cblock_token) => {
                secondary_tokens.push(SecondaryToken::CodeBlock(*cblock_token));
            },
            BlockToken::List(list_token) => {
                secondary_tokens.push(SecondaryToken::List(list_miner(list_token)));
            },
            BlockToken::Alignment(_) => {},
            BlockToken::Image(_) => {},
        }
        proof {
            assert(stoks(secondary_tokens@) =~= s0 + assemble_one(bm[k as int]));
            assert(stoks(secondary_tokens@) + spec_assemble(bm.skip(k as int + 1)) =~= s0
                + spec_assemble(bm.skip(k as int)));
        }
        k = k + 1;
    }
    proof {
        assert(spec_assemble(bm.skip(bm.len() as int)) =~= Seq::<STokM>::empty());
        assert(stoks(secondary_tokens@) =~= spec_assemble(bm));
    }
    secondary_tokens
}

// ---------------------------------------------------------------------------
// Rendering.
// ---------------------------------------------------------------------------

/// The literal fallback of an unmatched trailing opener: its marker text
/// in a plain span.
pub open spec fn fb_span(s: Seq<char>) -> Seq<char> {
    "<span>"@ + s + "</span>"@
}

/// An opening tag for an opening role, a closing tag otherwise.
pub open spec fn open_close(p: InlineTokenPos, o: Seq<char>, c: Seq<char>) -> Seq<char> {
    if p == InlineTokenPos::Open {
        o
    } else {
        c
    }
}

/// The markup one inline token sequence renders to, from position `i` on.
/// An opening token with nothing after it renders as its literal marker
/// text in a span and ends the walk; unimplemented kinds render as a
/// visible placeholder; a highlight opener reads the following text token
/// as its colour.
pub open spec fn render_inline_from(toks: Seq<ITokM>, i: int) -> Seq<char>
    decreases toks.len() - i,
{
    if i < 0 || i >= toks.len() {
        Seq::empty()
    } else {
        let has_next = i + 1 < toks.len();
        match toks[i] {
            ITokM::Text(s) => s + render_inline_from(toks, i + 1),
            ITokM::Emoji(p) => {
                if p == InlineTokenPos::Open && !has_next {
                    fb_span(":"@)
                } else {
                    "#unimplimented yet#"@ + render_inline_from(toks, i + 1)
                }
            },
            ITokM::Code(p) => {
                if p == InlineTokenPos::Open && !has_next {
                    fb_span("``"@)
                } else {
                    open_close(p, "<code class=\"code\">"@, "</code>"@) + render_inline_from(
                        toks,
                        i + 1,
                    )
                }
            },
            ITokM::Bold(p) => {
                if p == InlineTokenPos::Open && !has_next {
                    fb_span("*"@)
                } else {
                    open_close(p, "<b class=\"bold\">"@, "</b>"@) + render_inline_from(toks, i + 1)
                }
            },
            ITokM::Strike(p) => {
                if p == InlineTokenPos::Open && !has_next {
                    fb_span("~"@)
                } else {
                    open_close(p, "<strike class=\"strike\">"@, "</strike>"@) + render_inline_from(
                        toks,
                        i + 1,
                    )
                }
            },
            ITokM::Italic(p) => {
                if p == InlineTokenPos::Open && !has_next {
                    fb_span("_"@)
                } else {
                    open_close(p, "<i class=\"italic\">"@, "</i>"@) + render_inline_from(
                        toks,
                        i + 1,
                    )
                }
            },
            ITokM::Caption(p) => {
                if p == InlineTokenPos::Open && !has_next {
                    fb_span("**"@)
                } else {
                    open_close(p, "<caption class=\"caption\">"@, "</caption>"@)
                        + render_inline_from(toks, i + 1)
                }
            },
            ITokM::Underline(p) => {
                if p == InlineTokenPos::Open && !has_next {
                    fb_span("__"@)
                } else {
                    open_close(p, "<u class=\"underlined\">"@, "</u>"@) + render_inline_from(
                        toks,
                        i + 1,
                    )
                }
            },
            ITokM::Highlight(p) => {
                if p == InlineTokenPos::Open {
                    if !has_next {
                        fb_span("=="@)
                    } else {
                        match toks[i + 1] {
                            ITokM::Text(v) => "<span style=\"background-color: "@ + v
                                + ";\" class=\"highlight\">"@ + render_inline_from(toks, i + 2),
                            _ => "=="@ + render_inline_from(toks, i + 2),
                        }
                    }
                } else {
                    "</span>"@ + render_inline_from(toks, i + 1)
                }
            },
            ITokM::Link(s) => "#unimplimented yet#"@ + render_inline_from(toks, i + 1),
            ITokM::Size => "#unimplimented yet#"@ + render_inline_from(toks, i + 1),
            ITokM::Color => "#unimplimented yet#"@ + render_inline_from(toks, i + 1),
            ITokM::Family => "#unimplimented yet#"@ + render_inline_from(toks, i + 1),
        }
    }
}

/// The markup a whole inline token sequence renders to.
pub open spec fn render_inline(toks: Seq<ITokM>) -> Seq<char> {
    render_inline_from(toks, 0)
}

/// What the renderer does on one boundary role: an opener with nothing
/// after it writes the literal fallback in a span and stops the walk; an
/// opener with something after it goes on opening; anything else goes on
/// closing.
pub fn position_parser(
    position: &InlineTokenPos,
    has_next: bool,
    html: &mut String,
    fall_back_str: &str,
) -> (r: Action)
    ensures
        match *position {
            InlineTokenPos::Open => {
                if has_next {
                    final(html)@ == old(html)@ && r == Action::Continue(true)
                } else {
                    final(html)@ == old(html)@ + fb_span(fall_back_str@) && r == Action::Break
                }
            },
            _ => final(html)@ == old(html)@ && r == Action::Continue(false),
        },
{
    match position {
        InlineTokenPos::Open => {
            if !has_next {
                html.append("<span>");
                html.append(fall_back_str);
                html.append("</span>");
                proof {
                    assert(html@ =~= old(html)@ + fb_span(fall_back_str@));
                }
                Action::Break
            } else {
                Action::Continue(true)
            }
        },
        _ => Action::Continue(false),
    }
}

/// An exact copy of an inline token sequence.
fn clone_tokens(v: &Vec<InlineToken>) -> (r: Vec<InlineToken>)
    ensures
        r@ == v@,
{
    let mut r: Vec<InlineToken> = Vec::new();
    let mut i: usize = 0;
    while i < v.len()
        invariant
            i <= v@.len(),
            r@ == v@.subrange(0, i as int),
        decreases v@.len() - i,
    {
        r.push(inline_token::clone_token(&v[i]));
        i = i + 1;
        proof {
            assert(r@ =~= v@.subrange(0, i as int));
        }
    }
    proof {
        assert(r@ =~= v@);
    }
    r
}

/// Emit one simple marker token's markup: the literal fallback in a span
/// for an unmatched trailing opener — reporting that the walk stops — and
/// the opening or closing tag otherwise.
fn render_marker(
    html: &mut String,
    p: &InlineTokenPos,
    has_next: bool,
    fb: &str,
    o: &str,
    c: &str,
) -> (done: bool)
    ensures
        ({
            if *p == InlineTokenPos::Open && !has_next {
                final(html)@ == old(html)@ + fb_span(fb@) && done
            } else {
                final(html)@ == old(html)@ + open_close(*p, o@, c@) && !done
            }
        }),
{
    match position_parser(p, has_next, html, fb) {
        Action::Break => true,
        Action::Continue(is_open) => {
            if is_open {
                html.append(o);
            } else {
                html.append(c);
            }
            false
        },
    }
}

/// Render one inline token sequence to markup, as `render_inline` says.
#[verifier::rlimit(100)]
pub fn inline_tokens_parser(tokens: &mut Vec<InlineToken>) -> (r: String)
    ensures
        final(tokens)@ == old(tokens)@,
        r@ == render_inline(itoks(old(tokens)@)),
{
    let ghost m = itoks(tokens@);
    let mut inline_formats = String::new();
    let mut i: usize = 0;
    while i < tokens.len()
        invariant
            tokens@ == old(tokens)@,
            m == itoks(tokens@),
            i <= tokens@.len(),
            inline_formats@ + render_inline_from(m, i as int) == render_inline(m),
        decreases tokens@.len() - i,
    {
        let ghost f0 = inline_formats@;
        let ghost i0 = i as int;
        let has_next = i + 1 < tokens.len();
        proof {
            assert(m[i as int] == tokens@[i as int]@);
        }
        let done = match &tokens[i] {
            InlineToken::Text(content) => {
                inline_formats.append(content.as_str());
                i = i + 1;
                false
            },
            InlineToken::Emoji(pos) => {
                match position_parser(pos, has_next, &mut inline_formats, ":") {
                    Action::Break => true,
                    Action::Continue(_) => {
                        inline_formats.append("#unimplimented yet#");
                        i = i + 1;
                        false
                    },
                }
            },
            InlineToken::Code(pos) => {
                let d = render_marker(
                    &mut inline_formats,
                    pos,
                    has_next,
                    "``",
                    "<code class=\"code\">",
                    "</code>",
                );
                if !d {
                    i = i + 1;
                }
                d
            },
            InlineToken::Bold(pos) => {
                let d = render_marker(
                    &mut inline_formats,
                    pos,
                    has_next,
                    "*",
                    "<b class=\"bold\">",
                    "</b>",
                );
                if !d {
                    i = i + 1;
                }
                d
            },
            InlineToken::Strike(pos) => {
                let d = render_marker(
                    &mut inline_formats,
                    pos,
                    has_next,
                    "~",
                    "<strike class=\"strike\">",
                    "</strike>",
                );
                if !d {
                    i = i + 1;
                }
                d
            },
            InlineToken::Italic(pos) => {
                let d = render_marker(
                    &mut inline_formats,
                    pos,
                    has_next,
                    "_",
                    "<i class=\"italic\">",
                    "</i>",
                );
                if !d {
                    i = i + 1;
                }
                d
            },
            InlineToken::Caption(pos) => {
                let d = render_marker(
                    &mut inline_formats,
                    pos,
                    has_next,
                    "**",
                    "<caption class=\"caption\">",
                    "</caption>",
                );
                if !d {
                    i = i + 1;
                }
                d
            },
            InlineToken::Underline(pos) => {
                let d = render_marker(
                    &mut inline_formats,
                    pos,
                    has_next,
                    "__",
                    "<u class=\"underlined\">",
                    "</u>",
                );
                if !d {
                    i = i + 1;
                }
                d
            },
            InlineToken::Highlight(pos) => {
                match position_parser(pos, has_next, &mut inline_formats, "==") {
                    Action::Break => true,
                    Action::Continue(is_open) => {
                        if is_open {
                            proof {
                                assert(m[i as int + 1] == tokens@[i as int + 1]@);
                            }
                            match &tokens[i + 1] {
                                InlineToken::Text(value) => {
                                    inline_formats.append("<span style=\"background-color: ");
                                    inline_formats.append(value.as_str());
                                    inline_formats.append(";\" class=\"highlight\">");
                                },
                                _ => {
                                    inline_formats.append("==");
                                },
                            }
                            i = i + 2;
                        } else {
                            inline_formats.append("</span>");
                            i = i + 1;
                        }
                        false
                    },
                }
            },
            InlineToken::Link(_) => {
                inline_formats.append("#unimplimented yet#");
                i = i + 1;
                false
            },
            InlineToken::Size => {
                inline_formats.append("#unimplimented yet#");
                i = i + 1;
                false
            },
            InlineToken::Color => {
                inline_formats.append("#unimplimented yet#");
                i = i + 1;
                false
            },
            InlineToken::Family => {
                inline_formats.append("#unimplimented yet#");
                i = i + 1;
                false
            },
        };
        if done {
            proof {
                assert(inline_formats@ =~= f0 + render_inline_from(m, i0));
            }
            return inline_formats;
        }
        proof {
            assert(inline_formats@ + render_inline_from(m, i as int) =~= f0 + render_inline_from(
                m,
                i0,
            ));
        }
    }
    inline_formats
}


/// The opening tag of one list, selected by its kind; a custom bullet
/// writes its style name into the tag.
pub open spec fn ul_open(kind: KindM) -> Seq<char> {
    match kind {
        KindM::Todo => "<ul style=\"list-style-type:none;\" class=\"todo_list\">\n"@,
        KindM::Roman(case) => "<ul style=\"list-style-type:upper_roman;\" class=\"roman_list\">\n"@,
        KindM::Numbered => "<ul style=\"list-style-type: decimal;\" class=\"numbered_list\">\n"@,
        KindM::Bullet(BulletM::Default) => "<ul style=\"list-style-type: disc;\" class=\"list\">\n"@,
        KindM::Bullet(BulletM::Custom(name)) => "<ul style=\"list-style-type: "@ + name
            + ";\" class=\""@ + name + "-list\">\n"@,
        KindM::Alphabetic(AlphaType::Upper) => "<ul style=\"list-style-type: upper-alpha;\" class=\"numbered_list\">\n"@,
        KindM::Alphabetic(AlphaType::Lower) => "<ul style=\"list-style-type: lower-alpha;\" class=\"numbered_list\">\n"@,
    }
}

/// The opening tag of one list item, selected by its checkbox metadata.
pub open spec fn li_open(meta: ListMeta) -> Seq<char> {
    match meta {
        ListMeta::Plain => "<li>\n"@,
        ListMeta::Checked => "<li class=\"checked\">\n\t<input type=\"checkbox\" checked>"@,
        ListMeta::Unchecked => "<li class=\"unchecked\">\n\t<input type=\"checkbox\">"@,
    }
}

/// The markup of a resolved list's items from `i` on, with `k` child
/// lists already rendered: an item with text renders it inline, a nesting
/// item renders the next child list in order, and the list closes at the
/// end.
pub open spec fn render_items(l: SListM, i: int, k: int) -> Seq<char>
    decreases l, l.items.len() - i,
{
    if i < 0 || i >= l.items.len() {
        "</ul>\n"@
    } else {
        let meta = l.items[i].0;
        let toks = l.items[i].1;
        if toks.len() > 0 {
            li_open(meta) + render_inline(toks) + "</li>\n"@ + render_items(l, i + 1, k)
        } else {
            li_open(meta) + "\t"@ + (if 0 <= k < l.nests.len() {
                render_slist(l.nests[k])
            } else {
                Seq::empty()
            }) + "</li>\n"@ + render_items(l, i + 1, k + 1)
        }
    }
}

/// The markup of one resolved list.
pub open spec fn render_slist(l: SListM) -> Seq<char>
    decreases l, l.items.len() + 1,
{
    ul_open(l.kind) + render_items(l, 0, 0)
}

/// Render one resolved list, appending its markup, as `render_slist`
/// says.
#[verifier::rlimit(100)]
fn list_parser(sec_list: &SecList, list_element: &mut String)
    ensures
        final(list_element)@ == old(list_element)@ + render_slist(slist_model(*sec_list)),
    decreases *sec_list,
{
    let ghost lm = slist_model(*sec_list);
    let ghost base = list_element@;
    match &sec_list.kind {
        ListType::Todo => {
            list_element.append("<ul style=\"list-style-type:none;\" class=\"todo_list\">\n");
        },
        ListType::Roman(_) => {
            list_element.append(
                "<ul style=\"list-style-type:upper_roman;\" class=\"roman_list\">\n",
            );
        },
        ListType::Numbered => {
            list_element.append(
                "<ul style=\"list-style-type: decimal;\" class=\"numbered_list\">\n",
            );
        },
        ListType::Bullet(block_token::BulletType::Default) => {
            list_element.append("<ul style=\"list-style-type: disc;\" class=\"list\">\n");
        },
        ListType::Bullet(block_token::BulletType::Custom(name)) => {
            list_element.append("<ul style=\"list-style-type: ");
            list_element.append(name.as_str());
            list_element.append(";\" class=\"");
            list_element.append(name.as_str());
            list_element.append("-list\">\n");
        },
        ListType::Alphabetic(AlphaType::Upper) => {
            list_element.append(
                "<ul style=\"list-style-type: upper-alpha;\" class=\"numbered_list\">\n",
            );
        },
        ListType::Alphabetic(AlphaType::Lower) => {
            list_element.append(
                "<ul style=\"list-style-type: lower-alpha;\" class=\"numbered_list\">\n",
            );
        },
    }
    proof {
        assert(list_element@ =~= base + ul_open(lm.kind));
        lemma_slists_model(sec_list.nests@);
    }
    let mut i: usize = 0;
    let mut k: usize = 0;
    while i < sec_list.items.len()
        invariant
            lm == slist_model(*sec_list),
            i <= sec_list.items@.len(),
            k <= i,
            list_element@ + render_items(lm, i as int, k as int) == base + render_slist(lm),
        decreases sec_list.items@.len() - i,
    {
        let ghost f0 = list_element@;
        let ghost i0 = i as int;
        let ghost k0 = k as int;
        proof {
            assert(lm.items[i as int] == (sec_list.items@[i as int].0, itoks(
                sec_list.items@[i as int].1@,
            )));
        }
        let meta = sec_list.items[i].0;
        match meta {
            ListMeta::Plain => {
                list_element.append("<li>\n");
            },
            ListMeta::Checked => {
                list_element.append("<li class=\"checked\">\n\t<input type=\"checkbox\" checked>");
            },
            ListMeta::Unchecked => {
                list_element.append("<li class=\"unchecked\">\n\t<input type=\"checkbox\">");
            },
        }
        if sec_list.items[i].1.len() > 0 {
            let mut toks = clone_tokens(&sec_list.items[i].1);
            let text_content = inline_tokens_parser(&mut toks);
            list_element.append(text_content.as_str());
            list_element.append("</li>\n");
            proof {
                assert(list_element@ + render_items(lm, i0 + 1, k0) =~= f0 + render_items(
                    lm,
                    i0,
                    k0,
                ));
            }
        } else {
            list_element.append("\t");
            if k < sec_list.nests.len() {
                proof {
                    assert(decreases_to!(*sec_list => sec_list.nests@[k as int]));
                    lemma_slists_model(sec_list.nests@);
                }
                list_parser(&sec_list.nests[k], list_element);
            }
            list_element.append("</li>\n");
            k = k + 1;
            proof {
                lemma_slists_model(sec_list.nests@);
                assert(list_element@ + render_items(lm, i0 + 1, k as int) =~= f0 + render_items(
                    lm,
                    i0,
                    k0,
                ));
            }
        }
        i = i + 1;
    }
    proof {
        assert(render_items(lm, i as int, k as int) == "</ul>\n"@);
    }
    list_element.append("</ul>\n");
    proof {
        assert(list_element@ =~= base + render_slist(lm));
    }
}

/// The heading tags, the level clamped into one to six.
pub open spec fn h_open(level: int) -> Seq<char> {
    if level <= 1 {
        "<h1>"@
    } else if level == 2 {
        "<h2>"@
    } else if level == 3 {
        "<h3>"@
    } else if level == 4 {
        "<h4>"@
    } else if level == 5 {
        "<h5>"@
    } else {
        "<h6>"@
    }
}

/// The closing heading tag of the same clamped level.
pub open spec fn h_close(level: int) -> Seq<char> {
    if level <= 1 {
        "</h1>"@
    } else if level == 2 {
        "</h2>"@
    } else if level == 3 {
        "</h3>"@
    } else if level == 4 {
        "</h4>"@
    } else if level == 5 {
        "</h5>"@
    } else {
        "</h6>"@
    }
}

/// The markup of a document token sequence from `i` on; `in_p` says
/// whether a paragraph is open. The stream always closes with a paragraph
/// end and the document division.
pub open spec fn render_doc_from(toks: Seq<STokM>, i: int, in_p: bool) -> Seq<char>
    decreases toks.len() - i,
{
    if i < 0 || i >= toks.len() {
        "</p>\n</div>\n"@
    } else {
        match toks[i] {
            STokM::Br => "<br>\n"@ + render_doc_from(toks, i + 1, in_p),
            STokM::Par => (if in_p {
                "</p>\n<p>\n"@
            } else {
                "<p>"@
            }) + render_doc_from(toks, i + 1, true),
            STokM::Hr(HrToken::Simple) => "<hr class=\"hr\">\n"@ + render_doc_from(
                toks,
                i + 1,
                in_p,
            ),
            STokM::Hr(HrToken::Bold) => "<hr style=\"height:0.2rem;\" class=\"hr\">\n"@
                + render_doc_from(toks, i + 1, in_p),
            STokM::Fence(CodeBlock::Open) => "<div class=\"code_block\">\n"@ + render_doc_from(
                toks,
                i + 1,
                in_p,
            ),
            STokM::Fence(CodeBlock::Close) => "</div>\n"@ + render_doc_from(toks, i + 1, in_p),
            STokM::Text(v) => "<span>"@ + render_inline(v) + "</span>\n"@ + render_doc_from(
                toks,
                i + 1,
                in_p,
            ),
            STokM::Quote(v) => "<blockquote>"@ + render_inline(v) + "</blockquote>\n"@
                + render_doc_from(toks, i + 1, in_p),
            STokM::Heading(level, v) => h_open(level) + render_inline(v) + h_close(level) + "\n"@
                + render_doc_from(toks, i + 1, in_p),
            STokM::List(l) => render_slist(l) + render_doc_from(toks, i + 1, in_p),
            STokM::Form(v) => render_doc_from(toks, i + 1, in_p),
            STokM::Table(v) => render_doc_from(toks, i + 1, in_p),
        }
    }
}

/// The markup of a whole document token sequence.
pub open spec fn render_doc(toks: Seq<STokM>) -> Seq<char> {
    "<div>\n"@ + render_doc_from(toks, 0, false)
}

/// Render a document token sequence to markup, as `render_doc` says.
#[verifier::rlimit(100)]
pub fn parser(input: &Vec<SecondaryToken>) -> (r: String)
    ensures
        r@ == render_doc(stoks(input@)),
{
    let ghost m = stoks(input@);
    let mut html_stream = String::new();
    html_stream.append("<div>\n");
    let mut initi_p = false;
    let mut i: usize = 0;
    while i < input.len()
        invariant
            m == stoks(input@),
            i <= input@.len(),
            html_stream@ + render_doc_from(m, i as int, initi_p) == render_doc(m),
        decreases input@.len() - i,
    {
        let ghost f0 = html_stream@;
        let ghost i0 = i as int;
        let ghost p0 = initi_p;
        proof {
            assert(m[i as int] == input@[i as int]@);
        }
        match &input[i] {
            SecondaryToken::Br => {
                html_stream.append("<br>\n");
            },
            SecondaryToken::P => {
                if initi_p {
                    html_stream.append("</p>\n<p>\n");
                } else {
                    initi_p = true;
                    html_stream.append("<p>");
                }
            },
            SecondaryToken::Hr(HrToken::Simple) => {
                html_stream.append("<hr class=\"hr\">\n");
            },
            SecondaryToken::Hr(HrToken::Bold) => {
                html_stream.append("<hr style=\"height:0.2rem;\" class=\"hr\">\n");
            },
            SecondaryToken::CodeBlock(CodeBlock::Open) => {
                html_stream.append("<div class=\"code_block\">\n");
            },
            SecondaryToken::CodeBlock(CodeBlock::Close) => {
                html_stream.append("</div>\n");
            },
            SecondaryToken::Text(inline_tokens) => {
                let mut toks = clone_tokens(inline_tokens);
                let txt = inline_tokens_parser(&mut toks);
                html_stream.append("<span>");
                html_stream.append(txt.as_str());
                html_stream.append("</span>\n");
            },
            SecondaryToken::Blockquote(inline_tokens) => {
                let mut toks = clone_tokens(inline_tokens);
                let txt = inline_tokens_parser(&mut toks);
                html_stream.append("<blockquote>");
                html_stream.append(txt.as_str());
                html_stream.append("</blockquote>\n");
            },
            SecondaryToken::Heading(level, inline_tokens) => {
                let lv = *level;
                if lv <= 1 {
                    html_stream.append("<h1>");
                } else if lv == 2 {
                    html_stream.append("<h2>");
                } else if lv == 3 {
                    html_stream.append("<h3>");
                } else if lv == 4 {
                    html_stream.append("<h4>");
                } else if lv == 5 {
                    html_stream.append("<h5>");
                } else {
                    html_stream.append("<h6>");
                }
                let mut toks = clone_tokens(inline_tokens);
                let txt = inline_tokens_parser(&mut toks);
                html_stream.append(txt.as_str());
                if lv <= 1 {
                    html_stream.append("</h1>");
                } else if lv == 2 {
                    html_stream.append("</h2>");
                } else if lv == 3 {
                    html_stream.append("</h3>");
                } else if lv == 4 {
                    html_stream.append("</h4>");
                } else if lv == 5 {
                    html_stream.append("</h5>");
                } else {
                    html_stream.append("</h6>");
                }
                html_stream.append("\n");
            },
            SecondaryToken::List(sec_list) => {
                let mut list_element = String::new();
                list_parser(sec_list, &mut list_element);
                html_stream.append(list_element.as_str());
            },
            SecondaryToken::Form(_) => {},
            SecondaryToken::Table(_) => {},
        }
        i = i + 1;
        proof {
            assert(html_stream@ + render_doc_from(m, i as int, initi_p) =~= f0 + render_doc_from(
                m,
                i0,
                p0,
            ));
        }
    }
    html_stream.append("</p>\n</div>\n");
    proof {
        assert(render_doc_from(m, i as int, initi_p) == "</p>\n</div>\n"@);
        assert(html_stream@ =~= render_doc(m));
    }
    html_stream
}

} // verus!
