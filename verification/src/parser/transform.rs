//! Block structure from layout.
//!
//! The source spells no block brackets: how far a line is indented says
//! where a block starts, goes on and ends. A run of whitespace that breaks
//! a line sets an indentation, the width of what follows its last line
//! break. Deeper than the innermost open block, it starts a block; equally
//! deep, it goes on with it; shallower, it ends every block that is deeper.
//! At the end of the input every block that is still open ends.

use vstd::prelude::*;
use vstd::string::StrSliceExecFns;
use crate::lexer::token::{term_view, terms_view, SpecTerm, SpecToken, Term, Token};
use crate::span::Span;

verus! {

/// How many columns a tab counts for.
pub const TAB_SIZE: u128 = 4;

/// How many columns the character `c` counts for.
pub open spec fn columns(c: char) -> nat {
    if c == '\t' {
        4
    } else if c == ' ' {
        1
    } else {
        0
    }
}

/// The indentation that the whitespace `text` sets: the columns of what
/// follows its last line break. `None` if it breaks no line.
pub open spec fn indent(text: Seq<char>) -> Option<nat>
    decreases text.len(),
{
    if text.len() == 0 {
        None
    } else if text.last() == '\n' {
        Some(0)
    } else {
        match indent(text.drop_last()) {
            Some(depth) => Some(depth + columns(text.last())),
            None => None,
        }
    }
}

/// The depth of the innermost open block; 0 outside every block.
pub open spec fn innermost(open: Seq<nat>) -> nat {
    if open.len() == 0 {
        0
    } else {
        open.last()
    }
}

/// The open blocks that are left once every block deeper than `depth` has
/// ended.
pub open spec fn unwind(open: Seq<nat>, depth: nat) -> Seq<nat>
    decreases open.len(),
{
    if open.len() > 0 && open.last() > depth {
        unwind(open.drop_last(), depth)
    } else {
        open
    }
}

/// The span of a marker that stands for no text, right after `span`.
pub open spec fn after(span: Span) -> Span {
    Span { lo: span.hi, hi: span.hi, line: span.line }
}

/// `n` block ends: the first takes the place of the text at `span`, the
/// others stand right after it.
pub open spec fn ends(n: nat, span: Span) -> Seq<SpecTerm> {
    Seq::new(n, |i: int| if i == 0 { (span, SpecToken::BlockEnd) } else { (after(span), SpecToken::BlockEnd) })
}

/// What one token does to the open blocks, and what is handed on in its
/// place.
pub open spec fn step(open: Seq<nat>, term: SpecTerm) -> (Seq<nat>, Seq<SpecTerm>) {
    match term.1 {
        SpecToken::Whitespace(text) => match indent(text) {
            None => (open, seq![term]),
            Some(depth) => if depth == innermost(open) {
                (open, seq![(term.0, SpecToken::BlockCont)])
            } else if depth > innermost(open) {
                (open.push(depth), seq![(term.0, SpecToken::BlockStart)])
            } else {
                (unwind(open, depth), ends((open.len() - unwind(open, depth).len()) as nat, term.0))
            },
        },
        _ => (open, seq![term]),
    }
}

/// The open blocks and the tokens handed on after the first `n` of
/// `terms`.
pub open spec fn scan(terms: Seq<SpecTerm>, n: nat) -> (Seq<nat>, Seq<SpecTerm>)
    decreases n,
{
    if n == 0 || n > terms.len() {
        (Seq::empty(), Seq::empty())
    } else {
        let (open, out) = scan(terms, (n - 1) as nat);
        let (next, emitted) = step(open, terms[n - 1]);
        (next, out + emitted)
    }
}

/// Where the input ends: right after its last token.
pub open spec fn end_of(terms: Seq<SpecTerm>) -> Span {
    if terms.len() == 0 {
        Span { lo: 0, hi: 0, line: 0 }
    } else {
        after(terms.last().0)
    }
}

/// The tokens with their block structure made explicit.
pub open spec fn structured(terms: Seq<SpecTerm>) -> Seq<SpecTerm> {
    let (open, out) = scan(terms, terms.len());
    out + Seq::new(open.len(), |i: int| (end_of(terms), SpecToken::BlockEnd))
}

/// Whether the token is neither whitespace nor a comment.
pub open spec fn is_code(token: SpecToken) -> bool {
    !(token is Whitespace) && !(token is Comment)
}

/// The first `n` of `terms` without whitespace and comments.
pub open spec fn stripped(terms: Seq<SpecTerm>, n: nat) -> Seq<SpecTerm>
    decreases n,
{
    if n == 0 || n > terms.len() {
        Seq::empty()
    } else if is_code(terms[n - 1].1) {
        stripped(terms, (n - 1) as nat).push(terms[n - 1])
    } else {
        stripped(terms, (n - 1) as nat)
    }
}

/// The indentation that a run of whitespace sets.
pub fn parse_indent(text: &str) -> (depth: Option<u128>)
    ensures
        match depth {
            Some(d) => indent(text@) == Some(d as nat),
            None => indent(text@) is None,
        },
{
    let n = text.unicode_len();
    let mut depth: Option<u128> = None;
    let mut i: usize = 0;
    assert(text@.take(0) =~= Seq::<char>::empty());
    while i < n
        invariant
            i <= n,
            n == text@.len(),
            match depth {
                Some(d) => indent(text@.take(i as int)) == Some(d as nat) && d <= 4 * i,
                None => indent(text@.take(i as int)) is None,
            },
        decreases n - i,
    {
        let c = text.get_char(i);
        proof {
            let next = text@.take(i + 1);
            assert(next.last() == c);
            assert(next.drop_last() =~= text@.take(i as int));
        }
        if c == '\n' {
            depth = Some(0);
        } else {
            depth = match depth {
                Some(d) => Some(
                    if c == '\t' {
                        d + TAB_SIZE
                    } else if c == ' ' {
                        d + 1
                    } else {
                        d
                    },
                ),
                None => None,
            };
        }
        i = i + 1;
    }
    assert(text@.take(n as int) =~= text@);
    depth
}

/// The models of the depths of the open blocks.
pub open spec fn depths_view(open: Seq<u128>) -> Seq<nat> {
    Seq::new(open.len(), |i: int| open[i] as nat)
}

/// Makes the block structure of `tokens` explicit: each run of whitespace
/// that breaks a line gives way to the start, the continuation or the ends
/// of blocks, and the blocks still open at the end are ended. Every other
/// token is handed on as it is.
pub fn blocks(tokens: &Vec<Term>) -> (out: Vec<Term>)
    ensures
        terms_view(out@) == structured(terms_view(tokens@)),
{
    let ghost terms = terms_view(tokens@);
    let mut open: Vec<u128> = Vec::new();
    let mut out: Vec<Term> = Vec::new();
    let mut i: usize = 0;
    assert(terms_view(out@) =~= Seq::<SpecTerm>::empty());
    assert(depths_view(open@) =~= Seq::<nat>::empty());
    while i < tokens.len()
        invariant
            i <= tokens.len(),
            terms == terms_view(tokens@),
            scan(terms, i as nat) == (depths_view(open@), terms_view(out@)),
        decreases tokens.len() - i,
    {
        let ghost before_open = depths_view(open@);
        let ghost before_out = terms_view(out@);
        let span = tokens[i].0;
        let ghost term = terms[i as int];
        assert(term == term_view(tokens@[i as int]));
        let level: Option<u128> = match &tokens[i].1 {
            Token::Whitespace(text) => parse_indent(text.as_str()),
            _ => None,
        };
        match level {
            None => {
                out.push((span, tokens[i].1.duplicate()));
                assert(terms_view(out@) =~= before_out + seq![term]);
                assert(step(before_open, term) == (before_open, seq![term]));
            },
            Some(depth) => {
                let top: u128 = if open.len() == 0 { 0 } else { open[open.len() - 1] };
                assert(top as nat == innermost(before_open));
                if depth == top {
                    out.push((span, Token::BlockCont));
                    assert(terms_view(out@) =~= before_out + seq![(span, SpecToken::BlockCont)]);
                } else if depth > top {
                    open.push(depth);
                    out.push((span, Token::BlockStart));
                    assert(depths_view(open@) =~= before_open.push(depth as nat));
                    assert(terms_view(out@) =~= before_out + seq![(span, SpecToken::BlockStart)]);
                } else {
                    let mut first = true;
                    let ghost mut closed: nat = 0;
                    assert(ends(0, span) =~= Seq::<SpecTerm>::empty());
                    assert(before_out + ends(0, span) =~= before_out);
                    while open.len() > 0 && open[open.len() - 1] > depth
                        invariant
                            unwind(before_open, depth as nat) == unwind(depths_view(open@), depth as nat),
                            closed == before_open.len() - open@.len(),
                            open@.len() <= before_open.len(),
                            first == (closed == 0),
                            terms_view(out@) == before_out + ends(closed, span),
                        decreases open.len(),
                    {
                        let ghost was_open = depths_view(open@);
                        let ghost was_out = terms_view(out@);
                        open.pop();
                        assert(depths_view(open@) =~= was_open.drop_last());
                        if first {
                            out.push((span, Token::BlockEnd));
                            first = false;
                        } else {
                            out.push((Span { lo: span.hi, hi: span.hi, line: span.line }, Token::BlockEnd));
                        }
                        proof {
                            let marker = if closed == 0 {
                                (span, SpecToken::BlockEnd)
                            } else {
                                (after(span), SpecToken::BlockEnd)
                            };
                            assert(terms_view(out@) =~= was_out.push(marker));
                            assert(ends(closed + 1, span) =~= ends(closed, span).push(marker));
                            assert(was_out.push(marker) =~= before_out + ends(closed + 1, span));
                            closed = closed + 1;
                        }
                    }
                    assert(unwind(depths_view(open@), depth as nat) == depths_view(open@));
                }
            },
        }
        i = i + 1;
    }
    let end = if tokens.len() == 0 {
        Span { lo: 0, hi: 0, line: 0 }
    } else {
        let last = tokens[tokens.len() - 1].0;
        Span { lo: last.hi, hi: last.hi, line: last.line }
    };
    assert(end == end_of(terms));
    let ghost scanned = terms_view(out@);
    let ghost depths = depths_view(open@);
    let mut k: usize = 0;
    assert(scanned + Seq::new(0, |j: int| (end, SpecToken::BlockEnd)) =~= scanned);
    while k < open.len()
        invariant
            k <= open.len(),
            terms_view(out@) == scanned + Seq::new(k as nat, |j: int| (end, SpecToken::BlockEnd)),
        decreases open.len() - k,
    {
        let ghost was_out = terms_view(out@);
        out.push((end, Token::BlockEnd));
        assert(terms_view(out@) =~= was_out.push((end, SpecToken::BlockEnd)));
        assert(Seq::new((k + 1) as nat, |j: int| (end, SpecToken::BlockEnd)) =~= Seq::new(
            k as nat,
            |j: int| (end, SpecToken::BlockEnd),
        ).push((end, SpecToken::BlockEnd)));
        assert(was_out.push((end, SpecToken::BlockEnd)) =~= scanned + Seq::new(
            (k + 1) as nat,
            |j: int| (end, SpecToken::BlockEnd),
        ));
        k = k + 1;
    }
    out
}

/// The tokens without whitespace and comments.
pub fn strip(tokens: &Vec<Term>) -> (out: Vec<Term>)
    ensures
        terms_view(out@) == stripped(terms_view(tokens@), tokens@.len()),
{
    let mut out: Vec<Term> = Vec::new();
    let mut i: usize = 0;
    assert(terms_view(out@) =~= Seq::<SpecTerm>::empty());
    while i < tokens.len()
        invariant
            i <= tokens.len(),
            terms_view(out@) == stripped(terms_view(tokens@), i as nat),
        decreases tokens.len() - i,
    {
        let ghost before = terms_view(out@);
        let keep = match &tokens[i].1 {
            Token::Whitespace(_) => false,
            Token::Comment(_) => false,
            _ => true,
        };
        assert(terms_view(tokens@)[i as int] == term_view(tokens@[i as int]));
        if keep {
            out.push((tokens[i].0, tokens[i].1.duplicate()));
            assert(terms_view(out@) =~= before.push(term_view(tokens@[i as int])));
        }
        i = i + 1;
    }
    out
}

} // verus!

verus! {

/// How many blocks are open after `terms`: the starts less the ends.
pub open spec fn nesting(terms: Seq<SpecTerm>) -> int
    decreases terms.len(),
{
    if terms.len() == 0 {
        0
    } else {
        nesting(terms.drop_last()) + weight(terms.last().1)
    }
}

/// Whether the block markers of `terms` match: no block ends before it
/// has started, and every block that starts also ends.
pub open spec fn well_nested(terms: Seq<SpecTerm>) -> bool {
    &&& nesting(terms) == 0
    &&& forall|k: int| 0 <= k <= terms.len() ==> nesting(#[trigger] terms.take(k)) >= 0
}

/// Whether `terms` hold no block marker, as a token stream does that comes
/// from source text.
pub open spec fn unmarked(terms: Seq<SpecTerm>) -> bool {
    forall|i: int|
        0 <= i < terms.len() ==> !((#[trigger] terms[i]).1 is BlockStart) && !(terms[i].1 is BlockEnd) && !(terms[i].1
            is BlockCont)
}

/// The nesting after two runs of tokens is the sum of their nestings.
pub proof fn lemma_nesting_add(a: Seq<SpecTerm>, b: Seq<SpecTerm>)
    ensures
        nesting(a + b) == nesting(a) + nesting(b),
    decreases b.len(),
{
    if b.len() == 0 {
        assert(a + b =~= a);
    } else {
        assert((a + b).drop_last() =~= a + b.drop_last());
        assert((a + b).last() == b.last());
        lemma_nesting_add(a, b.drop_last());
    }
}

/// `n` block ends close `n` blocks.
pub proof fn lemma_nesting_of_ends(n: nat, span: Span)
    ensures
        nesting(ends(n, span)) == -(n as int),
    decreases n,
{
    if n > 0 {
        assert(ends(n, span).drop_last() =~= ends((n - 1) as nat, span));
        lemma_nesting_of_ends((n - 1) as nat, span);
    }
}

/// To unwind is to close some of the open blocks, never more.
pub proof fn lemma_unwind_shortens(open: Seq<nat>, depth: nat)
    ensures
        unwind(open, depth).len() <= open.len(),
    decreases open.len(),
{
    if open.len() > 0 && open.last() > depth {
        lemma_unwind_shortens(open.drop_last(), depth);
    }
}

/// Whether no block ends in `terms` before it has started, given that
/// `base` blocks are open already.
pub open spec fn never_below(terms: Seq<SpecTerm>, base: int) -> bool {
    forall|k: int| 0 <= k <= terms.len() ==> base + nesting(#[trigger] terms.take(k)) >= 0
}

/// If no block ends too early in `a`, nor in `b` after `a`, none does in
/// the two together.
pub proof fn lemma_never_below_add(a: Seq<SpecTerm>, b: Seq<SpecTerm>)
    requires
        never_below(a, 0),
        never_below(b, nesting(a)),
    ensures
        never_below(a + b, 0),
{
    assert forall|k: int| 0 <= k <= (a + b).len() implies nesting(#[trigger] (a + b).take(k)) >= 0 by {
        if k <= a.len() {
            assert((a + b).take(k) =~= a.take(k));
        } else {
            assert((a + b).take(k) =~= a + b.take(k - a.len()));
            lemma_nesting_add(a, b.take(k - a.len()));
        }
    }
}

/// What one token counts for in the nesting.
pub open spec fn weight(token: SpecToken) -> int {
    match token {
        SpecToken::BlockStart => 1,
        SpecToken::BlockEnd => -1,
        _ => 0,
    }
}

/// The nesting of a single token is its weight.
pub proof fn lemma_nesting_of_one(term: SpecTerm, base: int)
    requires
        base >= 0,
        base + weight(term.1) >= 0,
    ensures
        nesting(seq![term]) == weight(term.1),
        never_below(seq![term], base),
{
    let one = seq![term];
    assert(one.drop_last() =~= Seq::<SpecTerm>::empty());
    assert(one.last() == term);
    assert(nesting(Seq::<SpecTerm>::empty()) == 0);
    assert(nesting(one) == weight(term.1));
    assert forall|k: int| 0 <= k <= one.len() implies base + nesting(#[trigger] one.take(k)) >= 0 by {
        if k == 0 {
            assert(one.take(0) =~= Seq::<SpecTerm>::empty());
        } else {
            assert(one.take(k) =~= one);
        }
    }
}

/// What one token hands on closes no more blocks than are open, and leaves
/// as many open as the scan says.
pub proof fn lemma_step_nesting(open: Seq<nat>, term: SpecTerm)
    requires
        !(term.1 is BlockStart),
        !(term.1 is BlockEnd),
    ensures
        nesting(step(open, term).1) == step(open, term).0.len() - open.len(),
        never_below(step(open, term).1, open.len() as int),
{
    let (next, emitted) = step(open, term);
    let base = open.len() as int;
    match term.1 {
        SpecToken::Whitespace(text) => match indent(text) {
            None => {
                lemma_nesting_of_one(term, base);
            },
            Some(depth) => {
                if depth == innermost(open) {
                    lemma_nesting_of_one((term.0, SpecToken::BlockCont), base);
                } else if depth > innermost(open) {
                    lemma_nesting_of_one((term.0, SpecToken::BlockStart), base);
                } else {
                    lemma_unwind_shortens(open, depth);
                    let n = (open.len() - unwind(open, depth).len()) as nat;
                    lemma_nesting_of_ends(n, term.0);
                    assert forall|k: int| 0 <= k <= emitted.len() implies base + nesting(
                        #[trigger] emitted.take(k),
                    ) >= 0 by {
                        assert(emitted.take(k) =~= ends(k as nat, term.0));
                        lemma_nesting_of_ends(k as nat, term.0);
                    }
                }
            },
        },
        _ => {
            lemma_nesting_of_one(term, base);
        },
    }
}

/// After any number of tokens without markers, as many blocks are open as
/// the tokens handed on say, and none has ended before it started.
pub proof fn lemma_scan_nesting(terms: Seq<SpecTerm>, n: nat)
    requires
        unmarked(terms),
        n <= terms.len(),
    ensures
        nesting(scan(terms, n).1) == scan(terms, n).0.len(),
        never_below(scan(terms, n).1, 0),
    decreases n,
{
    if n == 0 {
        assert forall|k: int| 0 <= k <= scan(terms, n).1.len() implies nesting(
            #[trigger] scan(terms, n).1.take(k),
        ) >= 0 by {
            assert(scan(terms, n).1.take(k) =~= Seq::<SpecTerm>::empty());
        }
    } else {
        lemma_scan_nesting(terms, (n - 1) as nat);
        let (open, out) = scan(terms, (n - 1) as nat);
        let term = terms[n - 1];
        lemma_step_nesting(open, term);
        lemma_nesting_add(out, step(open, term).1);
        lemma_never_below_add(out, step(open, term).1);
    }
}

/// The layout of a token stream that comes from source text gives block
/// markers that match: no block ends before it has started, and every
/// block that starts also ends.
pub proof fn lemma_structured_is_well_nested(terms: Seq<SpecTerm>)
    requires
        unmarked(terms),
    ensures
        well_nested(structured(terms)),
{
    lemma_scan_nesting(terms, terms.len());
    let (open, out) = scan(terms, terms.len());
    let end = end_of(terms);
    let closing = Seq::new(open.len(), |i: int| (end, SpecToken::BlockEnd));
    assert forall|k: int| 0 <= k <= closing.len() implies nesting(out) + nesting(#[trigger] closing.take(k)) >= 0 by {
        assert(closing.take(k) =~= Seq::new(k as nat, |i: int| (end, SpecToken::BlockEnd)));
        lemma_nesting_of_closing(k as nat, end);
    }
    lemma_nesting_of_closing(open.len(), end);
    lemma_nesting_add(out, closing);
    lemma_never_below_add(out, closing);
}

/// `n` block ends at the end of the input close `n` blocks.
pub proof fn lemma_nesting_of_closing(n: nat, end: Span)
    ensures
        nesting(Seq::new(n, |i: int| (end, SpecToken::BlockEnd))) == -(n as int),
    decreases n,
{
    if n > 0 {
        assert(Seq::new(n, |i: int| (end, SpecToken::BlockEnd)).drop_last() =~= Seq::new(
            (n - 1) as nat,
            |i: int| (end, SpecToken::BlockEnd),
        ));
        lemma_nesting_of_closing((n - 1) as nat, end);
    }
}

/// To drop whitespace and comments changes no nesting.
pub proof fn lemma_stripped_nesting(terms: Seq<SpecTerm>, n: nat)
    requires
        n <= terms.len(),
    ensures
        nesting(stripped(terms, n)) == nesting(terms.take(n as int)),
    decreases n,
{
    if n == 0 {
    } else {
        lemma_stripped_nesting(terms, (n - 1) as nat);
        assert(terms.take(n as int).drop_last() =~= terms.take(n - 1));
        assert(terms.take(n as int).last() == terms[n - 1]);
        if is_code(terms[n - 1].1) {
            assert(stripped(terms, n).drop_last() =~= stripped(terms, (n - 1) as nat));
        }
    }
}

/// Markers that match still match once whitespace and comments are
/// dropped: what the parser reads is well nested.
pub proof fn lemma_stripped_is_well_nested(terms: Seq<SpecTerm>, n: nat)
    requires
        n <= terms.len(),
        never_below(terms, 0),
    ensures
        never_below(stripped(terms, n), 0),
        nesting(stripped(terms, n)) == nesting(terms.take(n as int)),
    decreases n,
{
    lemma_stripped_nesting(terms, n);
    if n == 0 {
        assert forall|k: int| 0 <= k <= stripped(terms, n).len() implies nesting(
            #[trigger] stripped(terms, n).take(k),
        ) >= 0 by {
            assert(stripped(terms, n).take(k) =~= Seq::<SpecTerm>::empty());
        }
    } else {
        lemma_stripped_is_well_nested(terms, (n - 1) as nat);
        let before = stripped(terms, (n - 1) as nat);
        let now = stripped(terms, n);
        assert forall|k: int| 0 <= k <= now.len() implies nesting(#[trigger] now.take(k)) >= 0 by {
            if k <= before.len() {
                assert(now.take(k) =~= before.take(k));
            } else {
                assert(now.take(k) =~= now);
            }
        }
    }
}

/// What the parser is given for a token stream that comes from source text
/// is well nested.
pub proof fn lemma_layout_is_well_nested(terms: Seq<SpecTerm>)
    requires
        unmarked(terms),
    ensures
        well_nested(stripped(structured(terms), structured(terms).len())),
{
    lemma_structured_is_well_nested(terms);
    let marked = structured(terms);
    lemma_stripped_is_well_nested(marked, marked.len());
    assert(marked.take(marked.len() as int) =~= marked);
}

} // verus!
