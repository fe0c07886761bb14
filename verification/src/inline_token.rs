//! Inline-level tokens and the inline resolver: one left-to-right pass with
//! one character of lookahead, an open-token stack, a plain-text buffer, and
//! a list of concerns — speculative decisions reconciled after the scan.

use vstd::prelude::*;

verus! {

/// A formatting span boundary's role: opening, closing, or no role at all.
#[derive(Debug, Clone, Copy, PartialEq, Eq, Structural)]
pub enum InlineTokenPos {
    Open,
    Close,
    Neither,
}

/// One inline token: plain text, or a formatting marker with its boundary
/// role. `Link`, `Size`, `Color` and `Family` are declared placeholders
/// that no scan path produces.
#[derive(Debug, Clone, PartialEq)]
pub enum InlineToken {
    Text(String),
    Link(String),
    Emoji(InlineTokenPos),
    Code(InlineTokenPos),
    Bold(InlineTokenPos),
    Strike(InlineTokenPos),
    Italic(InlineTokenPos),
    Caption(InlineTokenPos),
    Underline(InlineTokenPos),
    Highlight(InlineTokenPos),
    Size,
    Color,
    Family,
}

/// Atomic identifiers for the inline token kinds.
#[derive(Debug, Clone, Copy, PartialEq, Eq, Structural)]
pub enum InlineId {
    Text,
    Code,
    Bold,
    Link,
    Size,
    Color,
    Family,
    Strike,
    Italic,
    Caption,
    Underline,
    Emoji,
    Highlight,
}

/// What a general-purpose stack push receives: a text token's content, or
/// any other token's boundary role.
#[derive(Debug)]
pub enum Push {
    Text(String),
    Other(InlineTokenPos),
}

/// A rule's outcome: whether its close attempt went through.
#[derive(Debug, Clone, Copy, PartialEq, Eq, Structural)]
pub enum RuleResult {
    Success,
    Failure,
}

// ---------------------------------------------------------------------------
// Models over `Seq<char>`.
// ---------------------------------------------------------------------------

/// Model of an inline token.
pub enum ITokM {
    Text(Seq<char>),
    Link(Seq<char>),
    Emoji(InlineTokenPos),
    Code(InlineTokenPos),
    Bold(InlineTokenPos),
    Strike(InlineTokenPos),
    Italic(InlineTokenPos),
    Caption(InlineTokenPos),
    Underline(InlineTokenPos),
    Highlight(InlineTokenPos),
    Size,
    Color,
    Family,
}

impl View for InlineToken {
    type V = ITokM;

    open spec fn view(&self) -> ITokM {
        match self {
            InlineToken::Text(s) => ITokM::Text(s@),
            InlineToken::Link(s) => ITokM::Link(s@),
            InlineToken::Emoji(p) => ITokM::Emoji(*p),
            InlineToken::Code(p) => ITokM::Code(*p),
            InlineToken::Bold(p) => ITokM::Bold(*p),
            InlineToken::Strike(p) => ITokM::Strike(*p),
            InlineToken::Italic(p) => ITokM::Italic(*p),
            InlineToken::Caption(p) => ITokM::Caption(*p),
            InlineToken::Underline(p) => ITokM::Underline(*p),
            InlineToken::Highlight(p) => ITokM::Highlight(*p),
            InlineToken::Size => ITokM::Size,
            InlineToken::Color => ITokM::Color,
            InlineToken::Family => ITokM::Family,
        }
    }
}

/// Model of a push request.
pub enum PushM {
    Text(Seq<char>),
    Other(InlineTokenPos),
}

impl View for Push {
    type V = PushM;

    open spec fn view(&self) -> PushM {
        match self {
            Push::Text(s) => PushM::Text(s@),
            Push::Other(p) => PushM::Other(*p),
        }
    }
}

/// The models of a sequence of inline tokens.
pub open spec fn itoks(s: Seq<InlineToken>) -> Seq<ITokM> {
    s.map_values(|t: InlineToken| t@)
}

pub proof fn lemma_itoks_push(s: Seq<InlineToken>, t: InlineToken)
    ensures
        itoks(s.push(t)) == itoks(s).push(t@),
{
    assert(itoks(s.push(t)) =~= itoks(s).push(t@));
}

pub proof fn lemma_itoks_update(s: Seq<InlineToken>, i: int, t: InlineToken)
    requires
        0 <= i < s.len(),
    ensures
        itoks(s.update(i, t)) == itoks(s).update(i, t@),
{
    assert(itoks(s.update(i, t)) =~= itoks(s).update(i, t@));
}

/// The identifier of a token model.
pub open spec fn id_of(t: ITokM) -> InlineId {
    match t {
        ITokM::Text(s) => InlineId::Text,
        ITokM::Link(s) => InlineId::Link,
        ITokM::Emoji(p) => InlineId::Emoji,
        ITokM::Code(p) => InlineId::Code,
        ITokM::Bold(p) => InlineId::Bold,
        ITokM::Strike(p) => InlineId::Strike,
        ITokM::Italic(p) => InlineId::Italic,
        ITokM::Caption(p) => InlineId::Caption,
        ITokM::Underline(p) => InlineId::Underline,
        ITokM::Highlight(p) => InlineId::Highlight,
        ITokM::Size => InlineId::Size,
        ITokM::Color => InlineId::Color,
        ITokM::Family => InlineId::Family,
    }
}

/// The boundary role of a token model; text and the placeholder kinds have
/// none.
pub open spec fn pos_of(t: ITokM) -> InlineTokenPos {
    match t {
        ITokM::Emoji(p) => p,
        ITokM::Code(p) => p,
        ITokM::Bold(p) => p,
        ITokM::Strike(p) => p,
        ITokM::Italic(p) => p,
        ITokM::Caption(p) => p,
        ITokM::Underline(p) => p,
        ITokM::Highlight(p) => p,
        _ => InlineTokenPos::Neither,
    }
}

/// The single marker character a kind writes, as a one-character sequence;
/// empty for text and the placeholder kinds.
pub open spec fn marker_base(id: InlineId) -> Seq<char> {
    match id {
        InlineId::Code => seq!['`'],
        InlineId::Bold => seq!['*'],
        InlineId::Caption => seq!['*'],
        InlineId::Italic => seq!['_'],
        InlineId::Underline => seq!['_'],
        InlineId::Highlight => seq!['='],
        InlineId::Strike => seq!['~'],
        InlineId::Emoji => seq![':'],
        _ => Seq::empty(),
    }
}

/// A sequence repeated `n` times.
pub open spec fn repeat_seq(s: Seq<char>, n: nat) -> Seq<char>
    decreases n,
{
    if n == 0 {
        Seq::empty()
    } else {
        repeat_seq(s, (n - 1) as nat) + s
    }
}

/// The literal text of a marker kind repeated `count` times.
pub open spec fn lit_of(id: InlineId, count: nat) -> Seq<char> {
    repeat_seq(marker_base(id), count)
}

/// The marker text a kind writes on its own: the doubled kinds write two
/// characters, the single kinds one.
pub open spec fn canonical_lit(id: InlineId) -> Seq<char> {
    match id {
        InlineId::Code => lit_of(id, 2),
        InlineId::Caption => lit_of(id, 2),
        InlineId::Underline => lit_of(id, 2),
        InlineId::Highlight => lit_of(id, 2),
        InlineId::Bold => lit_of(id, 1),
        InlineId::Strike => lit_of(id, 1),
        InlineId::Italic => lit_of(id, 1),
        InlineId::Emoji => lit_of(id, 1),
        _ => Seq::empty(),
    }
}

/// The token a push request makes in a given context: a marker context
/// makes its own kind of token; the unimplemented contexts degrade a
/// non-text push to a visible placeholder text token.
pub open spec fn token_of(cxt: InlineId, p: PushM) -> ITokM {
    match p {
        PushM::Text(s) => ITokM::Text(s),
        PushM::Other(pos) => match cxt {
            InlineId::Code => ITokM::Code(pos),
            InlineId::Bold => ITokM::Bold(pos),
            InlineId::Strike => ITokM::Strike(pos),
            InlineId::Italic => ITokM::Italic(pos),
            InlineId::Caption => ITokM::Caption(pos),
            InlineId::Underline => ITokM::Underline(pos),
            InlineId::Emoji => ITokM::Emoji(pos),
            _ => ITokM::Text("Unimplemented"@),
        },
    }
}

/// The kind a context search looks for: the marker contexts search for
/// themselves, every other context searches the text tokens.
pub open spec fn search_id(cxt: InlineId) -> InlineId {
    match cxt {
        InlineId::Code => InlineId::Code,
        InlineId::Bold => InlineId::Bold,
        InlineId::Caption => InlineId::Caption,
        InlineId::Strike => InlineId::Strike,
        InlineId::Italic => InlineId::Italic,
        InlineId::Underline => InlineId::Underline,
        InlineId::Emoji => InlineId::Emoji,
        _ => InlineId::Text,
    }
}

/// Whether the nearest token of the searched kind, from the most recently
/// pushed backward, is still open.
pub open spec fn open_ctx(stack: Seq<ITokM>, cxt: InlineId) -> bool
    decreases stack.len(),
{
    if stack.len() == 0 {
        false
    } else if id_of(stack.last()) == search_id(cxt) {
        pos_of(stack.last()) == InlineTokenPos::Open
    } else {
        open_ctx(stack.drop_last(), cxt)
    }
}

/// The same search read front-to-back, as the reversed stack hands it to
/// `open_cxt_checkup`.
pub open spec fn open_ctx_front(rev: Seq<ITokM>, cxt: InlineId) -> bool
    decreases rev.len(),
{
    if rev.len() == 0 {
        false
    } else if id_of(rev[0]) == search_id(cxt) {
        pos_of(rev[0]) == InlineTokenPos::Open
    } else {
        open_ctx_front(rev.skip(1), cxt)
    }
}

/// Searching the reversed stack from the front is searching the stack from
/// the top.
pub proof fn lemma_open_ctx_reverse(stack: Seq<ITokM>, cxt: InlineId)
    ensures
        open_ctx_front(stack.reverse(), cxt) == open_ctx(stack, cxt),
    decreases stack.len(),
{
    if stack.len() > 0 {
        assert(stack.reverse()[0] == stack.last());
        assert(stack.reverse().skip(1) =~= stack.drop_last().reverse());
        lemma_open_ctx_reverse(stack.drop_last(), cxt);
    }
}

/// The kinds that may nest inside one another.
pub open spec fn nestable(id: InlineId) -> bool {
    id == InlineId::Bold || id == InlineId::Caption || id == InlineId::Italic || id
        == InlineId::Underline || id == InlineId::Strike
}

// ---------------------------------------------------------------------------
// The three rules, specified over stack and buffer.
// ---------------------------------------------------------------------------

/// The resolver's in-scan state: the token stack and the plain-text buffer.
pub struct StB {
    pub stack: Seq<ITokM>,
    pub buffer: Seq<char>,
}

/// Flush a non-empty buffer to the stack as one text token.
pub open spec fn spec_flush(st: StB) -> StB {
    if st.buffer.len() > 0 {
        StB { stack: st.stack.push(ITokM::Text(st.buffer)), buffer: Seq::empty() }
    } else {
        st
    }
}

/// The whitespace-or-punctuation-follows rule: the marker cannot open; it
/// closes the nearest open token of its kind if the context allows, and is
/// literal text otherwise.
pub open spec fn spec_ws_rule(st: StB, cxt: InlineId, mv: nat) -> StB {
    let st1 = spec_flush(st);
    let lit = token_of(cxt, PushM::Text(lit_of(cxt, mv)));
    if st1.stack.len() == 0 {
        StB { stack: st1.stack.push(lit), buffer: st1.buffer }
    } else {
        match st1.stack.last() {
            ITokM::Text(t) => {
                if t.len() == 0 || t.last() == ' ' {
                    StB { stack: st1.stack.push(lit), buffer: st1.buffer }
                } else if open_ctx(st1.stack, cxt) {
                    StB {
                        stack: st1.stack.push(
                            token_of(cxt, PushM::Other(InlineTokenPos::Close)),
                        ),
                        buffer: st1.buffer,
                    }
                } else {
                    StB { stack: st1.stack.push(lit), buffer: st1.buffer }
                }
            },
            _ => {
                if open_ctx(st1.stack, cxt) {
                    StB {
                        stack: st1.stack.push(
                            token_of(cxt, PushM::Other(InlineTokenPos::Close)),
                        ),
                        buffer: st1.buffer,
                    }
                } else {
                    StB { stack: st1.stack.push(lit), buffer: st1.buffer }
                }
            },
        }
    }
}

/// The other-character-follows rule: an empty state opens; after a space
/// the marker opens; after text it closes when a close is contextually
/// possible and is literal otherwise; atop a still-open nestable kind it
/// opens nested. The boolean says whether a close was pushed.
pub open spec fn spec_nonws_rule(st: StB, cxt: InlineId, mv: nat, cp: bool) -> (StB, bool) {
    let lit = token_of(cxt, PushM::Text(lit_of(cxt, mv)));
    if st.stack.len() == 0 && st.buffer.len() == 0 {
        (
            StB {
                stack: st.stack.push(token_of(cxt, PushM::Other(InlineTokenPos::Open))),
                buffer: st.buffer,
            },
            false,
        )
    } else {
        let st1 = spec_flush(st);
        match st1.stack.last() {
            ITokM::Text(t) => {
                if t.len() == 0 {
                    (StB { stack: st1.stack.push(lit), buffer: st1.buffer }, false)
                } else if t.last() == ' ' {
                    (
                        StB {
                            stack: st1.stack.push(
                                token_of(cxt, PushM::Other(InlineTokenPos::Open)),
                            ),
                            buffer: st1.buffer,
                        },
                        false,
                    )
                } else if cp {
                    (
                        StB {
                            stack: st1.stack.push(
                                token_of(cxt, PushM::Other(InlineTokenPos::Close)),
                            ),
                            buffer: st1.buffer,
                        },
                        true,
                    )
                } else {
                    (StB { stack: st1.stack.push(lit), buffer: st1.buffer }, false)
                }
            },
            top => {
                if nestable(id_of(top)) && id_of(top) != cxt {
                    match pos_of(top) {
                        InlineTokenPos::Open => (
                            StB {
                                stack: st1.stack.push(
                                    token_of(cxt, PushM::Other(InlineTokenPos::Open)),
                                ),
                                buffer: st1.buffer,
                            },
                            false,
                        ),
                        InlineTokenPos::Close => {
                            if cp {
                                (
                                    StB {
                                        stack: st1.stack.push(
                                            token_of(cxt, PushM::Other(InlineTokenPos::Close)),
                                        ),
                                        buffer: st1.buffer,
                                    },
                                    true,
                                )
                            } else {
                                (StB { stack: st1.stack.push(lit), buffer: st1.buffer }, false)
                            }
                        },
                        InlineTokenPos::Neither => (st1, false),
                    }
                } else {
                    (StB { stack: st1.stack.push(lit), buffer: st1.buffer }, false)
                }
            },
        }
    }
}

/// The end-of-input rule: the same decision structure with no lookahead;
/// nothing can open here.
pub open spec fn spec_last_rule(st: StB, cxt: InlineId, mv: nat) -> StB {
    let lit = token_of(cxt, PushM::Text(lit_of(cxt, mv)));
    if st.stack.len() == 0 && st.buffer.len() == 0 {
        StB { stack: st.stack.push(lit), buffer: st.buffer }
    } else {
        let st1 = spec_flush(st);
        match st1.stack.last() {
            ITokM::Text(t) => {
                if t.len() == 0 || t.last() == ' ' {
                    StB { stack: st1.stack.push(lit), buffer: st1.buffer }
                } else if open_ctx(st1.stack, cxt) {
                    StB {
                        stack: st1.stack.push(
                            token_of(cxt, PushM::Other(InlineTokenPos::Close)),
                        ),
                        buffer: st1.buffer,
                    }
                } else {
                    StB { stack: st1.stack.push(lit), buffer: st1.buffer }
                }
            },
            top => {
                if nestable(id_of(top)) && id_of(top) != cxt {
                    match pos_of(top) {
                        InlineTokenPos::Open => StB {
                            stack: st1.stack.push(lit),
                            buffer: st1.buffer,
                        },
                        InlineTokenPos::Close => StB {
                            stack: st1.stack.push(
                                token_of(cxt, PushM::Other(InlineTokenPos::Close)),
                            ),
                            buffer: st1.buffer,
                        },
                        InlineTokenPos::Neither => StB {
                            stack: st1.stack.push(lit),
                            buffer: st1.buffer,
                        },
                    }
                } else {
                    StB { stack: st1.stack.push(lit), buffer: st1.buffer }
                }
            },
        }
    }
}

// ---------------------------------------------------------------------------
// The whole resolver scan.
// ---------------------------------------------------------------------------

/// The resolver's full state: stack, buffer, and the recorded concerns.
pub struct ResM {
    pub stack: Seq<ITokM>,
    pub buffer: Seq<char>,
    pub concerns: Seq<int>,
}

/// The punctuation characters the resolver groups with whitespace.
pub open spec fn punct_char(c: char) -> bool {
    c == ',' || c == '.' || c == '?' || c == '!' || c == '\'' || c == '"' || c == ';' || c == '-'
}

/// A lookahead character that invokes the whitespace rule.
pub open spec fn pw_char(c: char) -> bool {
    punct_char(c) || crate::text::white_char(c)
}

/// The reserved marker characters.
pub open spec fn reserved_char(c: char) -> bool {
    c == '~' || c == '*' || c == '_' || c == ':'
}

/// The character at `i`, if any.
pub open spec fn opt_at(s: Seq<char>, i: int) -> Option<char> {
    if 0 <= i < s.len() {
        Option::Some(s[i])
    } else {
        Option::None
    }
}

/// One marker occurrence: pick the rule from the lookahead character. A
/// reserved lookahead records the resulting stack position as a concern.
pub open spec fn marker_step(st: ResM, cxt: InlineId, mv: nat, nxt: Option<char>) -> ResM {
    let stb = StB { stack: st.stack, buffer: st.buffer };
    match nxt {
        Option::None => {
            let r = spec_last_rule(stb, cxt, mv);
            ResM { stack: r.stack, buffer: r.buffer, concerns: st.concerns }
        },
        Option::Some(c) => {
            if pw_char(c) {
                let r = spec_ws_rule(stb, cxt, mv);
                ResM { stack: r.stack, buffer: r.buffer, concerns: st.concerns }
            } else if reserved_char(c) {
                let r = spec_nonws_rule(stb, cxt, mv, true).0;
                ResM {
                    stack: r.stack,
                    buffer: r.buffer,
                    concerns: st.concerns.push(r.stack.len() as int),
                }
            } else {
                let r = spec_nonws_rule(stb, cxt, mv, false).0;
                ResM { stack: r.stack, buffer: r.buffer, concerns: st.concerns }
            }
        },
    }
}

/// A code-span marker occurrence: as `marker_step`, but a reserved
/// lookahead is no special case and records no concern.
pub open spec fn code_step(st: ResM, nxt: Option<char>) -> ResM {
    let stb = StB { stack: st.stack, buffer: st.buffer };
    match nxt {
        Option::None => {
            let r = spec_last_rule(stb, InlineId::Code, 2);
            ResM { stack: r.stack, buffer: r.buffer, concerns: st.concerns }
        },
        Option::Some(c) => {
            if pw_char(c) {
                let r = spec_ws_rule(stb, InlineId::Code, 2);
                ResM { stack: r.stack, buffer: r.buffer, concerns: st.concerns }
            } else {
                let r = spec_nonws_rule(stb, InlineId::Code, 2, false).0;
                ResM { stack: r.stack, buffer: r.buffer, concerns: st.concerns }
            }
        },
    }
}

/// The scan from position `i` on: markers invoke their rules with one
/// character of lookahead, a doubled marker selects the doubled kind, every
/// other character is buffered, and the buffer is flushed at the end.
pub open spec fn scan_inline(st: ResM, s: Seq<char>, i: int) -> ResM
    decreases s.len() - i,
{
    if i < 0 || i >= s.len() {
        let f = spec_flush(StB { stack: st.stack, buffer: st.buffer });
        ResM { stack: f.stack, buffer: f.buffer, concerns: st.concerns }
    } else {
        let c = s[i];
        if c == '*' {
            if i + 1 < s.len() && s[i + 1] == '*' {
                scan_inline(marker_step(st, InlineId::Caption, 2, opt_at(s, i + 2)), s, i + 2)
            } else {
                scan_inline(marker_step(st, InlineId::Bold, 1, opt_at(s, i + 1)), s, i + 1)
            }
        } else if c == '_' {
            if i + 1 < s.len() && s[i + 1] == '_' {
                scan_inline(marker_step(st, InlineId::Underline, 2, opt_at(s, i + 2)), s, i + 2)
            } else {
                scan_inline(marker_step(st, InlineId::Italic, 1, opt_at(s, i + 1)), s, i + 1)
            }
        } else if c == '~' {
            scan_inline(marker_step(st, InlineId::Strike, 1, opt_at(s, i + 1)), s, i + 1)
        } else if c == ':' {
            scan_inline(marker_step(st, InlineId::Emoji, 1, opt_at(s, i + 1)), s, i + 1)
        } else if c == '`' {
            if i + 1 < s.len() && s[i + 1] == '`' {
                scan_inline(code_step(st, opt_at(s, i + 2)), s, i + 2)
            } else {
                scan_inline(
                    ResM { stack: st.stack, buffer: st.buffer.push('`'), concerns: st.concerns },
                    s,
                    i + 1,
                )
            }
        } else {
            scan_inline(
                ResM { stack: st.stack, buffer: st.buffer.push(c), concerns: st.concerns },
                s,
                i + 1,
            )
        }
    }
}

/// Post-scan reconciliation: for every recorded concern, a token at that
/// stack position that is still open — never paired with a genuine close —
/// is replaced in place by its literal marker text.
pub open spec fn reconcile(stack: Seq<ITokM>, concerns: Seq<int>, k: int) -> Seq<ITokM>
    decreases concerns.len() - k,
{
    if k < 0 || k >= concerns.len() {
        stack
    } else {
        let idx = concerns[k] - 1;
        let st2 = if 0 <= idx < stack.len() && pos_of(stack[idx]) == InlineTokenPos::Open {
            stack.update(idx, ITokM::Text(canonical_lit(id_of(stack[idx]))))
        } else {
            stack
        };
        reconcile(st2, concerns, k + 1)
    }
}

/// What resolving a text payload yields: the scan from an empty state,
/// then reconciliation of the recorded concerns, in order.
pub open spec fn resolve(s: Seq<char>) -> Seq<ITokM> {
    let st = scan_inline(
        ResM { stack: Seq::empty(), buffer: Seq::empty(), concerns: Seq::empty() },
        s,
        0,
    );
    reconcile(st.stack, st.concerns, 0)
}

// ---------------------------------------------------------------------------
// Laws of the resolver.
// ---------------------------------------------------------------------------

/// Purity: the tokens a payload resolves to are a function of its
/// characters alone, so resolving identical text payloads twice yields
/// identical token sequences.
pub proof fn lemma_resolver_pure(a: Seq<char>, b: Seq<char>)
    requires
        a == b,
    ensures
        resolve(a) == resolve(b),
{
}

/// A marker with whitespace or punctuation on its opening side never
/// opens: whatever the state, the whitespace rule only ever adds literal
/// text or a closing token to the stack, never an opening one.
pub proof fn lemma_ws_rule_never_opens(st: StB, cxt: InlineId, mv: nat)
    ensures
        ({
            let r = spec_ws_rule(st, cxt, mv);
            forall|j: int|
                st.stack.len() <= j < r.stack.len() ==> pos_of(#[trigger] r.stack[j])
                    != InlineTokenPos::Open
        }),
{
    let st1 = spec_flush(st);
    let r = spec_ws_rule(st, cxt, mv);
    assert forall|j: int|
        st.stack.len() <= j < r.stack.len() implies pos_of(#[trigger] r.stack[j])
        != InlineTokenPos::Open by {
        if j < st1.stack.len() {
            assert(r.stack[j] == ITokM::Text(st.buffer));
        }
    }
}

/// A character that no rule of the resolver treats specially: it is not a
/// marker, not a code-span backtick, not whitespace and not punctuation —
/// the scan only ever buffers it. The space character is listed on its
/// own because the rules read it off the buffered text directly.
pub open spec fn plain_char(c: char) -> bool {
    c != ' ' && !pw_char(c) && !reserved_char(c) && c != '`'
}

/// Scanning a segment of plain characters only moves them into the
/// buffer.
proof fn lemma_scan_plain_seg(st: ResM, s: Seq<char>, i: int, j: int)
    requires
        0 <= i <= j <= s.len(),
        forall|t: int| i <= t < j ==> plain_char(#[trigger] s[t]),
    ensures
        scan_inline(st, s, i) == scan_inline(
            ResM {
                stack: st.stack,
                buffer: st.buffer + s.subrange(i, j),
                concerns: st.concerns,
            },
            s,
            j,
        ),
    decreases j - i,
{
    if i < j {
        let st2 = ResM { stack: st.stack, buffer: st.buffer.push(s[i]), concerns: st.concerns };
        lemma_scan_plain_seg(st2, s, i + 1, j);
        assert(st.buffer.push(s[i]) + s.subrange(i + 1, j) =~= st.buffer + s.subrange(i, j));
    } else {
        assert(st.buffer + s.subrange(i, i) =~= st.buffer);
        assert(ResM {
            stack: st.stack,
            buffer: st.buffer + s.subrange(i, i),
            concerns: st.concerns,
        } == st);
    }
}

/// For a balanced single-marker pair — the marker, plain non-empty text,
/// the same marker, nothing else — the resolver yields an opening token,
/// the text, and a matching closing token of the same kind: no literal
/// consumption of that marker kind intervenes.
pub proof fn lemma_balanced_pair(s: Seq<char>, cxt: InlineId, w: Seq<char>)
    requires
        cxt == InlineId::Bold || cxt == InlineId::Italic || cxt == InlineId::Strike || cxt
            == InlineId::Emoji,
        w.len() > 0,
        forall|t: int| 0 <= t < w.len() ==> plain_char(#[trigger] w[t]),
        s == marker_base(cxt) + w + marker_base(cxt),
    ensures
        resolve(s) == seq![
            token_of(cxt, PushM::Other(InlineTokenPos::Open)),
            ITokM::Text(w),
            token_of(cxt, PushM::Other(InlineTokenPos::Close)),
        ],
{
    let mc = marker_base(cxt)[0];
    assert(s.len() == w.len() + 2);
    assert(s[0] == mc);
    assert(s[s.len() - 1] == mc);
    assert forall|t: int| 0 <= t < w.len() implies s[t + 1] == w[t] by {}
    let init = ResM {
        stack: Seq::<ITokM>::empty(),
        buffer: Seq::<char>::empty(),
        concerns: Seq::<int>::empty(),
    };
    // The opening marker: its lookahead is the first plain character, so
    // the other-character rule runs on the empty state and opens.
    assert(opt_at(s, 1) == Option::Some(w[0]));
    assert(!pw_char(w[0]) && !reserved_char(w[0]) && w[0] != '`' && w[0] != mc);
    let st1 = marker_step(init, cxt, 1, opt_at(s, 1));
    assert(st1.stack =~= seq![token_of(cxt, PushM::Other(InlineTokenPos::Open))]);
    assert(st1.buffer =~= Seq::<char>::empty());
    assert(st1.concerns =~= Seq::<int>::empty());
    assert(scan_inline(init, s, 0) == scan_inline(st1, s, 1));
    // The plain text: it is buffered unchanged.
    lemma_scan_plain_seg(st1, s, 1, 1 + w.len() as int);
    let st2 = ResM {
        stack: st1.stack,
        buffer: st1.buffer + s.subrange(1, 1 + w.len() as int),
        concerns: st1.concerns,
    };
    assert(st2.buffer =~= w);
    // The closing marker: it ends the input, so the end-of-input rule
    // flushes the text and closes against the open token below it.
    let last = s.len() - 1;
    assert(scan_inline(st1, s, 1) == scan_inline(st2, s, last));
    let st3 = marker_step(st2, cxt, 1, opt_at(s, s.len() as int));
    assert(opt_at(s, s.len() as int) == Option::<char>::None);
    let flushed = StB { stack: st2.stack, buffer: st2.buffer };
    let f1 = spec_flush(flushed);
    assert(f1.stack =~= seq![token_of(cxt, PushM::Other(InlineTokenPos::Open)), ITokM::Text(w)]);
    assert(w.last() != ' ');
    assert(f1.stack.last() == ITokM::Text(w));
    assert(f1.stack.drop_last() =~= seq![token_of(cxt, PushM::Other(InlineTokenPos::Open))]);
    assert(id_of(token_of(cxt, PushM::Other(InlineTokenPos::Open))) == search_id(cxt));
    assert(open_ctx(f1.stack.drop_last(), cxt));
    assert(open_ctx(f1.stack, cxt));
    assert(st3.stack =~= seq![
        token_of(cxt, PushM::Other(InlineTokenPos::Open)),
        ITokM::Text(w),
        token_of(cxt, PushM::Other(InlineTokenPos::Close)),
    ]);
    assert(st3.buffer =~= Seq::<char>::empty());
    assert(st3.concerns =~= Seq::<int>::empty());
    assert(scan_inline(st2, s, last) == scan_inline(st3, s, s.len() as int));
    let fin = scan_inline(st3, s, s.len() as int);
    assert(fin.stack == st3.stack && fin.concerns == st3.concerns);
    assert(reconcile(fin.stack, fin.concerns, 0) == fin.stack);
}

// ---------------------------------------------------------------------------
// Executable resolver.
// ---------------------------------------------------------------------------

impl InlineToken {
    /// The contained boundary role of the token, `Neither` for text and
    /// the placeholder kinds.
    pub fn get_pos(&self) -> (r: &InlineTokenPos)
        ensures
            *r == pos_of(self@),
    {
        match self {
            InlineToken::Code(pos) => pos,
            InlineToken::Bold(pos) => pos,
            InlineToken::Strike(pos) => pos,
            InlineToken::Italic(pos) => pos,
            InlineToken::Caption(pos) => pos,
            InlineToken::Underline(pos) => pos,
            InlineToken::Highlight(pos) => pos,
            InlineToken::Emoji(pos) => pos,
            _ => &InlineTokenPos::Neither,
        }
    }

    /// The token's identifier.
    pub fn get_id(&self) -> (r: InlineId)
        ensures
            r == id_of(self@),
    {
        match self {
            InlineToken::Text(_) => InlineId::Text,
            InlineToken::Code(_) => InlineId::Code,
            InlineToken::Bold(_) => InlineId::Bold,
            InlineToken::Link(_) => InlineId::Link,
            InlineToken::Size => InlineId::Size,
            InlineToken::Color => InlineId::Color,
            InlineToken::Family => InlineId::Family,
            InlineToken::Strike(_) => InlineId::Strike,
            InlineToken::Italic(_) => InlineId::Italic,
            InlineToken::Caption(_) => InlineId::Caption,
            InlineToken::Underline(_) => InlineId::Underline,
            InlineToken::Highlight(_) => InlineId::Highlight,
            InlineToken::Emoji(_) => InlineId::Emoji,
        }
    }
}

/// An exact copy of a token.
pub(crate) fn clone_token(t: &InlineToken) -> (r: InlineToken)
    ensures
        r == *t,
{
    match t {
        InlineToken::Text(s) => InlineToken::Text(s.clone()),
        InlineToken::Link(s) => InlineToken::Link(s.clone()),
        InlineToken::Emoji(p) => InlineToken::Emoji(*p),
        InlineToken::Code(p) => InlineToken::Code(*p),
        InlineToken::Bold(p) => InlineToken::Bold(*p),
        InlineToken::Strike(p) => InlineToken::Strike(*p),
        InlineToken::Italic(p) => InlineToken::Italic(*p),
        InlineToken::Caption(p) => InlineToken::Caption(*p),
        InlineToken::Underline(p) => InlineToken::Underline(*p),
        InlineToken::Highlight(p) => InlineToken::Highlight(*p),
        InlineToken::Size => InlineToken::Size,
        InlineToken::Color => InlineToken::Color,
        InlineToken::Family => InlineToken::Family,
    }
}

/// The stack in reverse order, most recently pushed first.
fn reversed_stack(stack: &Vec<InlineToken>) -> (r: Vec<InlineToken>)
    ensures
        r@.len() == stack@.len(),
        forall|j: int| 0 <= j < r@.len() ==> r@[j] == stack@[stack@.len() - 1 - j],
{
    let mut r: Vec<InlineToken> = Vec::new();
    let mut i: usize = stack.len();
    while i > 0
        invariant
            i <= stack@.len(),
            r@.len() == stack@.len() - i,
            forall|j: int| 0 <= j < r@.len() ==> r@[j] == stack@[stack@.len() - 1 - j],
        decreases i,
    {
        r.push(clone_token(&stack[i - 1]));
        i = i - 1;
    }
    r
}

/// The marker text of the given kind repeated `count` times with no space.
pub fn id2text_format(id: &InlineId, count: usize) -> (r: String)
    ensures
        r@ == lit_of(*id, count as nat),
{
    proof {
        reveal_strlit("`");
        reveal_strlit("*");
        reveal_strlit("_");
        reveal_strlit("=");
        reveal_strlit("~");
        reveal_strlit(":");
        reveal_strlit("");
    }
    let base: &str = match id {
        InlineId::Code => "`",
        InlineId::Bold => "*",
        InlineId::Caption => "*",
        InlineId::Italic => "_",
        InlineId::Underline => "_",
        InlineId::Highlight => "=",
        InlineId::Strike => "~",
        InlineId::Emoji => ":",
        _ => "",
    };
    proof {
        assert(base@ =~= marker_base(*id));
    }
    let mut r = String::new();
    let mut j: usize = 0;
    while j < count
        invariant
            j <= count,
            base@ == marker_base(*id),
            r@ == lit_of(*id, j as nat),
        decreases count - j,
    {
        r.append(base);
        j = j + 1;
        proof {
            assert(r@ =~= lit_of(*id, j as nat));
        }
    }
    r
}

/// Whether the most recent token of the searched kind in the reversed
/// stack — nearest first — is still open.
pub fn open_cxt_checkup(rev_stack: &mut Vec<InlineToken>, cxt: &InlineId) -> (r: bool)
    ensures
        final(rev_stack)@ == old(rev_stack)@,
        r == open_ctx_front(itoks(old(rev_stack)@), *cxt),
{
    let sid = match cxt {
        InlineId::Code => InlineId::Code,
        InlineId::Bold => InlineId::Bold,
        InlineId::Caption => InlineId::Caption,
        InlineId::Strike => InlineId::Strike,
        InlineId::Italic => InlineId::Italic,
        InlineId::Underline => InlineId::Underline,
        InlineId::Emoji => InlineId::Emoji,
        _ => InlineId::Text,
    };
    proof {
        assert(sid == search_id(*cxt));
        assert(itoks(rev_stack@).skip(0) =~= itoks(rev_stack@));
    }
    let mut i: usize = 0;
    while i < rev_stack.len()
        invariant
            rev_stack@ == old(rev_stack)@,
            i <= rev_stack@.len(),
            sid == search_id(*cxt),
            open_ctx_front(itoks(rev_stack@), *cxt) == open_ctx_front(
                itoks(rev_stack@).skip(i as int),
                *cxt,
            ),
        decreases rev_stack@.len() - i,
    {
        let ghost tail = itoks(rev_stack@).skip(i as int);
        proof {
            assert(tail[0] == rev_stack@[i as int]@);
            assert(tail.skip(1) =~= itoks(rev_stack@).skip(i as int + 1));
        }
        let id = (&rev_stack[i]).get_id();
        if id == sid {
            let p = *(&rev_stack[i]).get_pos();
            return p == InlineTokenPos::Open;
        }
        i = i + 1;
    }
    false
}

/// Push one token of the context's kind, or a text token, onto the stack.
pub fn cxt_stack_push(cxt: &InlineId, stack: &mut Vec<InlineToken>, to_push: Push)
    ensures
        itoks(final(stack)@) == itoks(old(stack)@).push(token_of(*cxt, to_push@)),
{
    let ghost t0 = stack@;
    let ghost pm = to_push@;
    let tok = match to_push {
        Push::Text(value) => InlineToken::Text(value),
        Push::Other(pos) => match cxt {
            InlineId::Code => InlineToken::Code(pos),
            InlineId::Bold => InlineToken::Bold(pos),
            InlineId::Strike => InlineToken::Strike(pos),
            InlineId::Italic => InlineToken::Italic(pos),
            InlineId::Caption => InlineToken::Caption(pos),
            InlineId::Underline => InlineToken::Underline(pos),
            InlineId::Emoji => InlineToken::Emoji(pos),
            _ => InlineToken::Text(String::from_str("Unimplemented")),
        },
    };
    proof {
        assert(tok@ == token_of(*cxt, pm));
    }
    stack.push(tok);
    proof {
        lemma_itoks_push(t0, tok);
    }
}

/// Flush a non-empty buffer to the stack as one text token.
fn flush_buffer(stack: &mut Vec<InlineToken>, buffer: &mut String)
    ensures
        ({
            let r = spec_flush(StB { stack: itoks(old(stack)@), buffer: old(buffer)@ });
            itoks(final(stack)@) == r.stack && final(buffer)@ == r.buffer
        }),
{
    if !buffer.as_str().is_empty() {
        let ghost t0 = stack@;
        let b = buffer.clone();
        let tok = InlineToken::Text(b);
        stack.push(tok);
        proof {
            lemma_itoks_push(t0, tok);
        }
        *buffer = String::new();
    }
}

/// What the stack's top looks like to the rules: whether it is a text
/// token, and whether that text is empty or ends in a space.
fn top_shape(stack: &Vec<InlineToken>) -> (r: (bool, bool))
    requires
        stack@.len() > 0,
    ensures
        ({
            let top = itoks(stack@).last();
            match top {
                ITokM::Text(t) => r.0 && (r.1 == (t.len() == 0 || t.last() == ' ')),
                _ => !r.0,
            }
        }),
{
    proof {
        assert(itoks(stack@).last() == stack@[stack@.len() - 1]@);
    }
    match &stack[stack.len() - 1] {
        InlineToken::Text(t) => {
            let n = t.as_str().unicode_len();
            if n == 0 {
                (true, true)
            } else {
                let lastc = t.as_str().get_char(n - 1);
                (true, lastc == ' ')
            }
        },
        _ => (false, false),
    }
}

/// Whether the stack's top is a still-open or closed nestable kind other
/// than the context's own, and which role it has.
fn top_nest_shape(stack: &Vec<InlineToken>, cxt: &InlineId) -> (r: (bool, InlineTokenPos))
    requires
        stack@.len() > 0,
    ensures
        ({
            let top = itoks(stack@).last();
            r.0 == (nestable(id_of(top)) && id_of(top) != *cxt) && r.1 == pos_of(top)
        }),
{
    proof {
        assert(itoks(stack@).last() == stack@[stack@.len() - 1]@);
    }
    let top = &stack[stack.len() - 1];
    let id = top.get_id();
    let nest = (id == InlineId::Bold || id == InlineId::Caption || id == InlineId::Italic || id
        == InlineId::Underline || id == InlineId::Strike) && !(id == *cxt);
    let p = *top.get_pos();
    (nest, p)
}

/// Whether an open token of the context's kind stands in the stack, the
/// nearest first, read through the reversed stack.
fn check_open(stack: &Vec<InlineToken>, cxt: &InlineId) -> (r: bool)
    ensures
        r == open_ctx(itoks(stack@), *cxt),
{
    let mut rev = reversed_stack(stack);
    proof {
        assert(itoks(rev@) =~= itoks(stack@).reverse());
        lemma_open_ctx_reverse(itoks(stack@), *cxt);
    }
    open_cxt_checkup(&mut rev, cxt)
}

/// The rule enforced when whitespace or punctuation follows a reserved
/// formatting character: the marker cannot open here.
pub fn nxt_is_whitespace_rule(
    stack: &mut Vec<InlineToken>,
    buffer: &mut String,
    cxt: InlineId,
    movements: usize,
)
    ensures
        ({
            let r = spec_ws_rule(
                StB { stack: itoks(old(stack)@), buffer: old(buffer)@ },
                cxt,
                movements as nat,
            );
            itoks(final(stack)@) == r.stack && final(buffer)@ == r.buffer
        }),
{
    flush_buffer(stack, buffer);
    if stack.len() == 0 {
        let lit = id2text_format(&cxt, movements);
        cxt_stack_push(&cxt, stack, Push::Text(lit));
        return;
    }
    let (is_text, text_lit) = top_shape(stack);
    if is_text && text_lit {
        let lit = id2text_format(&cxt, movements);
        cxt_stack_push(&cxt, stack, Push::Text(lit));
    } else {
        if check_open(stack, &cxt) {
            cxt_stack_push(&cxt, stack, Push::Other(InlineTokenPos::Close));
        } else {
            let lit = id2text_format(&cxt, movements);
            cxt_stack_push(&cxt, stack, Push::Text(lit));
        }
    }
}

/// The rule enforced when an ordinary or another reserved character
/// follows a reserved formatting character; `close_possibility` says
/// whether a close is contextually permitted. Returns whether the close
/// went through.
pub fn nxt_non_whitespace_rule(
    stack: &mut Vec<InlineToken>,
    buffer: &mut String,
    cxt: &InlineId,
    movements: usize,
    close_possibility: bool,
) -> (res: RuleResult)
    ensures
        ({
            let r = spec_nonws_rule(
                StB { stack: itoks(old(stack)@), buffer: old(buffer)@ },
                *cxt,
                movements as nat,
                close_possibility,
            );
            itoks(final(stack)@) == r.0.stack && final(buffer)@ == r.0.buffer && (res
                == RuleResult::Success) == r.1
        }),
{
    if stack.len() == 0 && buffer.as_str().is_empty() {
        cxt_stack_push(cxt, stack, Push::Other(InlineTokenPos::Open));
        return RuleResult::Failure;
    }
    flush_buffer(stack, buffer);
    proof {
        assert(itoks(stack@).len() == stack@.len());
        assert(stack@.len() > 0);
    }
    let (is_text, text_lit) = top_shape(stack);
    if is_text {
        // Distinguish the empty text from the space-ended text: only the
        // latter opens.
        let empty_text = match &stack[stack.len() - 1] {
            InlineToken::Text(t) => t.as_str().is_empty(),
            _ => false,
        };
        if empty_text {
            let lit = id2text_format(cxt, movements);
            cxt_stack_push(cxt, stack, Push::Text(lit));
            return RuleResult::Failure;
        }
        if text_lit {
            cxt_stack_push(cxt, stack, Push::Other(InlineTokenPos::Open));
            return RuleResult::Failure;
        }
        if close_possibility {
            cxt_stack_push(cxt, stack, Push::Other(InlineTokenPos::Close));
            return RuleResult::Success;
        }
        let lit = id2text_format(cxt, movements);
        cxt_stack_push(cxt, stack, Push::Text(lit));
        return RuleResult::Failure;
    }
    let (nest, p) = top_nest_shape(stack, cxt);
    if nest {
        match p {
            InlineTokenPos::Open => {
                cxt_stack_push(cxt, stack, Push::Other(InlineTokenPos::Open));
                RuleResult::Failure
            },
            InlineTokenPos::Close => {
                if close_possibility {
                    cxt_stack_push(cxt, stack, Push::Other(InlineTokenPos::Close));
                    RuleResult::Success
                } else {
                    let lit = id2text_format(cxt, movements);
                    cxt_stack_push(cxt, stack, Push::Text(lit));
                    RuleResult::Failure
                }
            },
            InlineTokenPos::Neither => RuleResult::Failure,
        }
    } else {
        let lit = id2text_format(cxt, movements);
        cxt_stack_push(cxt, stack, Push::Text(lit));
        RuleResult::Failure
    }
}

/// The rule enforced when a reserved formatting character ends the input:
/// the same decision structure with no lookahead, and nothing can open.
pub fn is_last_char_rule(
    stack: &mut Vec<InlineToken>,
    buffer: &mut String,
    cxt: &InlineId,
    movements: usize,
)
    ensures
        ({
            let r = spec_last_rule(
                StB { stack: itoks(old(stack)@), buffer: old(buffer)@ },
                *cxt,
                movements as nat,
            );
            itoks(final(stack)@) == r.stack && final(buffer)@ == r.buffer
        }),
{
    if stack.len() == 0 && buffer.as_str().is_empty() {
        let lit = id2text_format(cxt, movements);
        cxt_stack_push(cxt, stack, Push::Text(lit));
        return;
    }
    flush_buffer(stack, buffer);
    proof {
        assert(itoks(stack@).len() == stack@.len());
        assert(stack@.len() > 0);
    }
    let (is_text, text_lit) = top_shape(stack);
    if is_text {
        if text_lit {
            let lit = id2text_format(cxt, movements);
            cxt_stack_push(cxt, stack, Push::Text(lit));
        } else {
            if check_open(stack, cxt) {
                cxt_stack_push(cxt, stack, Push::Other(InlineTokenPos::Close));
            } else {
                let lit = id2text_format(cxt, movements);
                cxt_stack_push(cxt, stack, Push::Text(lit));
            }
        }
        return;
    }
    let (nest, p) = top_nest_shape(stack, cxt);
    if nest {
        match p {
            InlineTokenPos::Open => {
                let lit = id2text_format(cxt, movements);
                cxt_stack_push(cxt, stack, Push::Text(lit));
            },
            InlineTokenPos::Close => {
                cxt_stack_push(cxt, stack, Push::Other(InlineTokenPos::Close));
            },
            InlineTokenPos::Neither => {
                let lit = id2text_format(cxt, movements);
                cxt_stack_push(cxt, stack, Push::Text(lit));
            },
        }
    } else {
        let lit = id2text_format(cxt, movements);
        cxt_stack_push(cxt, stack, Push::Text(lit));
    }
}

/// The models of the recorded concern positions.
pub open spec fn concerns_model(s: Seq<usize>) -> Seq<int> {
    s.map_values(|u: usize| u as int)
}

/// Whether a lookahead character invokes the whitespace rule.
fn is_pw(c: char) -> (r: bool)
    ensures
        r == pw_char(c),
{
    c == ',' || c == '.' || c == '?' || c == '!' || c == '\'' || c == '"' || c == ';' || c == '-'
        || crate::text::char_is_white(c)
}

/// One marker occurrence in the scan: pick the rule from the lookahead at
/// `look`, and record a concern for a reserved lookahead.
fn marker_exec(
    s: &Vec<char>,
    look: usize,
    stack: &mut Vec<InlineToken>,
    buffer: &mut String,
    concerns: &mut Vec<usize>,
    cxt: InlineId,
    mv: usize,
)
    ensures
        ({
            let r = marker_step(
                ResM {
                    stack: itoks(old(stack)@),
                    buffer: old(buffer)@,
                    concerns: concerns_model(old(concerns)@),
                },
                cxt,
                mv as nat,
                opt_at(s@, look as int),
            );
            itoks(final(stack)@) == r.stack && final(buffer)@ == r.buffer && concerns_model(
                final(concerns)@,
            ) == r.concerns
        }),
{
    let ghost c0 = concerns_model(concerns@);
    if look < s.len() {
        let c = s[look];
        if is_pw(c) {
            nxt_is_whitespace_rule(stack, buffer, cxt, mv);
        } else if c == '~' || c == '*' || c == '_' || c == ':' {
            nxt_non_whitespace_rule(stack, buffer, &cxt, mv, true);
            concerns.push(stack.len());
            proof {
                assert(concerns_model(concerns@) =~= c0.push(itoks(stack@).len() as int));
            }
        } else {
            nxt_non_whitespace_rule(stack, buffer, &cxt, mv, false);
        }
    } else {
        is_last_char_rule(stack, buffer, &cxt, mv);
    }
}

/// One code-span marker occurrence: as `marker_exec`, with no reserved
/// case and no concern.
fn code_exec(
    s: &Vec<char>,
    look: usize,
    stack: &mut Vec<InlineToken>,
    buffer: &mut String,
)
    ensures
        ({
            let r = code_step(
                ResM {
                    stack: itoks(old(stack)@),
                    buffer: old(buffer)@,
                    concerns: Seq::empty(),
                },
                opt_at(s@, look as int),
            );
            itoks(final(stack)@) == r.stack && final(buffer)@ == r.buffer
        }),
{
    if look < s.len() {
        let c = s[look];
        if is_pw(c) {
            nxt_is_whitespace_rule(stack, buffer, InlineId::Code, 2);
        } else {
            nxt_non_whitespace_rule(stack, buffer, &InlineId::Code, 2, false);
        }
    } else {
        is_last_char_rule(stack, buffer, &InlineId::Code, 2);
    }
}

/// Resolve one text payload into its ordered inline tokens. The result is
/// exactly what `resolve` says of the payload's characters: the marker
/// scan followed by the reconciliation of the recorded concerns.
pub fn inline_tokenization(block_content: String) -> (r: Vec<InlineToken>)
    ensures
        itoks(r@) == resolve(block_content@),
{
    let s = crate::text::chars_of(block_content.as_str());
    let ghost s0 = block_content@;
    let ghost init = ResM {
        stack: Seq::<ITokM>::empty(),
        buffer: Seq::<char>::empty(),
        concerns: Seq::<int>::empty(),
    };
    let mut stack: Vec<InlineToken> = Vec::new();
    let mut buffer = String::new();
    let mut concerns: Vec<usize> = Vec::new();
    proof {
        assert(concerns_model(concerns@) =~= Seq::<int>::empty());
        assert(itoks(stack@) =~= Seq::<ITokM>::empty());
    }
    let mut i: usize = 0;
    while i < s.len()
        invariant
            s@ == s0,
            i <= s@.len(),
            scan_inline(
                ResM {
                    stack: itoks(stack@),
                    buffer: buffer@,
                    concerns: concerns_model(concerns@),
                },
                s0,
                i as int,
            ) == scan_inline(init, s0, 0),
        decreases s@.len() - i,
    {
        let c = s[i];
        if c == '*' {
            if i + 1 < s.len() && s[i + 1] == '*' {
                marker_exec(&s, i + 2, &mut stack, &mut buffer, &mut concerns, InlineId::Caption, 2);
                i = i + 2;
            } else {
                marker_exec(&s, i + 1, &mut stack, &mut buffer, &mut concerns, InlineId::Bold, 1);
                i = i + 1;
            }
        } else if c == '_' {
            if i + 1 < s.len() && s[i + 1] == '_' {
                marker_exec(
                    &s,
                    i + 2,
                    &mut stack,
                    &mut buffer,
                    &mut concerns,
                    InlineId::Underline,
                    2,
                );
                i = i + 2;
            } else {
                marker_exec(&s, i + 1, &mut stack, &mut buffer, &mut concerns, InlineId::Italic, 1);
                i = i + 1;
            }
        } else if c == '~' {
            marker_exec(&s, i + 1, &mut stack, &mut buffer, &mut concerns, InlineId::Strike, 1);
            i = i + 1;
        } else if c == ':' {
            marker_exec(&s, i + 1, &mut stack, &mut buffer, &mut concerns, InlineId::Emoji, 1);
            i = i + 1;
        } else if c == '`' {
            if i + 1 < s.len() && s[i + 1] == '`' {
                code_exec(&s, i + 2, &mut stack, &mut buffer);
                i = i + 2;
            } else {
                crate::text::push_char(&mut buffer, '`');
                i = i + 1;
            }
        } else {
            crate::text::push_char(&mut buffer, c);
            i = i + 1;
        }
    }
    flush_buffer(&mut stack, &mut buffer);
    let ghost scanned = scan_inline(init, s0, 0);
    proof {
        assert(itoks(stack@) == scanned.stack);
        assert(concerns_model(concerns@) == scanned.concerns);
    }
    let ghost cm = concerns_model(concerns@);
    let ghost stack1 = itoks(stack@);
    let mut k: usize = 0;
    while k < concerns.len()
        invariant
            concerns@.len() == cm.len(),
            cm == concerns_model(concerns@),
            k <= cm.len(),
            reconcile(itoks(stack@), cm, k as int) == reconcile(stack1, cm, 0),
        decreases cm.len() - k,
    {
        let pos1 = concerns[k];
        if pos1 >= 1 && pos1 - 1 < stack.len() {
            let idx = pos1 - 1;
            let p = *(&stack[idx]).get_pos();
            proof {
                assert(itoks(stack@)[idx as int] == stack@[idx as int]@);
            }
            if p == InlineTokenPos::Open {
                let id = (&stack[idx]).get_id();
                let lit = match id {
                    InlineId::Code => id2text_format(&id, 2),
                    InlineId::Caption => id2text_format(&id, 2),
                    InlineId::Underline => id2text_format(&id, 2),
                    InlineId::Highlight => id2text_format(&id, 2),
                    InlineId::Bold => id2text_format(&id, 1),
                    InlineId::Strike => id2text_format(&id, 1),
                    InlineId::Italic => id2text_format(&id, 1),
                    InlineId::Emoji => id2text_format(&id, 1),
                    _ => String::new(),
                };
                proof {
                    assert(lit@ == canonical_lit(id));
                }
                let ghost t0 = stack@;
                let tok = InlineToken::Text(lit);
                stack.set(idx, tok);
                proof {
                    lemma_itoks_update(t0, idx as int, tok);
                }
            }
        }
        k = k + 1;
    }
    stack
}

} // verus!
