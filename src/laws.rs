use vstd::prelude::*;

use crate::grammar::{
    append, close, finish, lemma_run_concat, opened, parse, run, start, step, Fault, Region, Scan,
};
use crate::text::blank;

verus! {

/// Text that is one word outside quotes: no whitespace and no quote character.
pub open spec fn plain(w: Seq<char>) -> bool {
    forall|i: int| 0 <= i < w.len() ==> !blank(#[trigger] w[i]) && w[i] != '\'' && w[i] != '"'
}

/// Text made of ASCII whitespace alone.
pub open spec fn blanks(w: Seq<char>) -> bool {
    forall|i: int| 0 <= i < w.len() ==> blank(#[trigger] w[i])
}

/// One of the two quote characters.
pub open spec fn is_quote(q: char) -> bool {
    q == '\'' || q == '"'
}

/// Text that stays as it is between two `q` quotes: no `q`, and inside double
/// quotes no backslash.
pub open spec fn literal_in(w: Seq<char>, q: char) -> bool {
    forall|i: int| 0 <= i < w.len() ==> #[trigger] w[i] != q && (q == '"' ==> w[i] != '\\')
}

proof fn lemma_run_one(st: Scan, c: char)
    ensures
        run(st, seq![c]) == step(st, c),
{
    reveal_with_fuel(run, 2);
    assert(seq![c].drop_last() =~= Seq::<char>::empty());
}

proof fn lemma_chain(st: Scan, a: Seq<char>, b: Seq<char>, m: Scan, n: Scan)
    requires
        run(st, a) == Ok::<Scan, char>(m),
        run(m, b) == Ok::<Scan, char>(n),
    ensures
        run(st, a + b) == Ok::<Scan, char>(n),
{
    lemma_run_concat(st, a, b);
}

/// Plain text outside quotes extends the open word, or opens one.
proof fn lemma_bare_text(st: Scan, w: Seq<char>)
    requires
        st.region is Bare,
        !st.escaping,
        plain(w),
        st.word is Some || w.len() > 0,
    ensures
        run(st, w) == Ok::<Scan, char>(append(st, w)),
    decreases w.len(),
{
    if w.len() == 0 {
        assert(append(st, w) =~= st);
    } else if w.len() == 1 {
        lemma_run_one(st, w[0]);
        assert(w =~= seq![w[0]]);
    } else {
        let u = w.drop_last();
        lemma_bare_text(st, u);
        assert(plain(u));
        assert(w.last() == w[w.len() - 1]);
        assert(opened(st.word) + u + seq![w.last()] =~= opened(st.word) + w);
        assert(step(append(st, u), w.last())->Ok_0 =~= append(st, w));
    }
}

/// Text that stays literal inside the quote extends the open word.
proof fn lemma_quoted_text(st: Scan, w: Seq<char>, q: char)
    requires
        is_quote(q),
        st.region == (if q == '\'' { Region::Single } else { Region::Double }),
        !st.escaping,
        st.word is Some,
        literal_in(w, q),
    ensures
        run(st, w) == Ok::<Scan, char>(append(st, w)),
    decreases w.len(),
{
    if w.len() == 0 {
        assert(append(st, w) =~= st);
    } else {
        let u = w.drop_last();
        lemma_quoted_text(st, u, q);
        assert(literal_in(u, q));
        assert(w.last() == w[w.len() - 1]);
        assert(opened(st.word) + u + seq![w.last()] =~= opened(st.word) + w);
        assert(step(append(st, u), w.last())->Ok_0 =~= append(st, w));
    }
}

/// A run of whitespace outside quotes ends the open word.
proof fn lemma_blanks(st: Scan, ws: Seq<char>)
    requires
        st.region is Bare,
        !st.escaping,
        blanks(ws),
        ws.len() > 0,
    ensures
        run(st, ws) == Ok::<Scan, char>(close(st)),
    decreases ws.len(),
{
    if ws.len() == 1 {
        lemma_run_one(st, ws[0]);
        assert(ws =~= seq![ws[0]]);
    } else {
        let u = ws.drop_last();
        lemma_blanks(st, u);
        assert(blanks(u));
        assert(ws.last() == ws[ws.len() - 1]);
    }
}

/// A quoted piece outside quotes adds its content to the word, opening one
/// if none is open.
proof fn lemma_quoted_piece(st: Scan, q: char, x: Seq<char>)
    requires
        st.region is Bare,
        !st.escaping,
        is_quote(q),
        literal_in(x, q),
    ensures
        run(st, seq![q] + x + seq![q]) == Ok::<Scan, char>(append(st, x)),
{
    let s1 = step(st, q)->Ok_0;
    lemma_run_one(st, q);
    lemma_quoted_text(s1, x, q);
    let s2 = append(s1, x);
    lemma_chain(st, seq![q], x, s1, s2);
    lemma_run_one(s2, q);
    assert(opened(s1.word) + x =~= opened(st.word) + x) by {
        assert(opened(st.word) + seq![] =~= opened(st.word));
    }
    assert(step(s2, q)->Ok_0 =~= append(st, x));
    lemma_chain(st, seq![q] + x, seq![q], s2, append(st, x));
}

/// Input of whitespace alone, the empty input included, names no program.
pub proof fn law_blank_input_has_no_program(s: Seq<char>)
    requires
        blanks(s),
    ensures
        parse(s) == Err::<Seq<Seq<char>>, Fault>(Fault::EmptyProgram),
{
    if s.len() > 0 {
        lemma_blanks(start(), s);
    }
}

/// Any runs of whitespace before, between and after plain words only
/// separate them: the words come out as they are, in order.
pub proof fn law_whitespace_collapses(
    ws1: Seq<char>,
    p: Seq<char>,
    ws2: Seq<char>,
    a1: Seq<char>,
    ws3: Seq<char>,
    a2: Seq<char>,
    ws4: Seq<char>,
)
    requires
        blanks(ws1) && ws1.len() > 0,
        blanks(ws2) && ws2.len() > 0,
        blanks(ws3) && ws3.len() > 0,
        blanks(ws4) && ws4.len() > 0,
        plain(p) && p.len() > 0,
        plain(a1) && a1.len() > 0,
        plain(a2) && a2.len() > 0,
    ensures
        parse(ws1 + p + ws2 + a1 + ws3 + a2 + ws4) == Ok::<Seq<Seq<char>>, Fault>(seq![p, a1, a2]),
{
    let s0 = start();
    lemma_blanks(s0, ws1);
    let s1 = append(s0, p);
    lemma_bare_text(s0, p);
    lemma_chain(s0, ws1, p, s0, s1);
    let s2 = close(s1);
    lemma_blanks(s1, ws2);
    lemma_chain(s0, ws1 + p, ws2, s1, s2);
    let s3 = append(s2, a1);
    lemma_bare_text(s2, a1);
    lemma_chain(s0, ws1 + p + ws2, a1, s2, s3);
    let s4 = close(s3);
    lemma_blanks(s3, ws3);
    lemma_chain(s0, ws1 + p + ws2 + a1, ws3, s3, s4);
    let s5 = append(s4, a2);
    lemma_bare_text(s4, a2);
    lemma_chain(s0, ws1 + p + ws2 + a1 + ws3, a2, s4, s5);
    let s6 = close(s5);
    lemma_blanks(s5, ws4);
    lemma_chain(s0, ws1 + p + ws2 + a1 + ws3 + a2, ws4, s5, s6);
    assert(seq![] + p =~= p);
    assert(seq![] + a1 =~= a1);
    assert(seq![] + a2 =~= a2);
    assert(close(s6).words =~= seq![p, a1, a2]);
}

/// A program in quotes followed by one plain word: the quotes are dropped and
/// both come out unchanged.
pub proof fn law_quotes_stripped(q: char, p: Seq<char>, w: Seq<char>)
    requires
        is_quote(q),
        literal_in(p, q),
        plain(w) && w.len() > 0,
    ensures
        parse(seq![q] + p + seq![q] + seq![' '] + w) == Ok::<Seq<Seq<char>>, Fault>(seq![p, w]),
{
    let s0 = start();
    lemma_quoted_piece(s0, q, p);
    let s1 = append(s0, p);
    let s2 = close(s1);
    lemma_run_one(s1, ' ');
    lemma_chain(s0, seq![q] + p + seq![q], seq![' '], s1, s2);
    let s3 = append(s2, w);
    lemma_bare_text(s2, w);
    lemma_chain(s0, seq![q] + p + seq![q] + seq![' '], w, s2, s3);
    assert(seq![] + p =~= p);
    assert(seq![] + w =~= w);
    assert(close(s3).words =~= seq![p, w]);
}

/// The state after a plain program name and one space.
pub open spec fn after_program(e: Seq<char>) -> Scan {
    Scan { words: seq![e], word: None, region: Region::Bare, escaping: false }
}

proof fn lemma_program(e: Seq<char>)
    requires
        plain(e) && e.len() > 0,
    ensures
        run(start(), e + seq![' ']) == Ok::<Scan, char>(after_program(e)),
{
    let s0 = start();
    let s1 = append(s0, e);
    lemma_bare_text(s0, e);
    lemma_run_one(s1, ' ');
    lemma_chain(s0, e, seq![' '], s1, close(s1));
    assert(seq![] + e =~= e);
    assert(close(s1) =~= after_program(e));
}

/// Plain text that may be empty, then a quoted piece: the word holds both.
proof fn lemma_lead_then_quoted(st: Scan, a: Seq<char>, q: char, x: Seq<char>)
    requires
        st.region is Bare,
        !st.escaping,
        plain(a),
        is_quote(q),
        literal_in(x, q),
    ensures
        run(st, a + (seq![q] + x + seq![q])) == Ok::<Scan, char>(append(st, a + x)),
{
    if a.len() > 0 {
        lemma_bare_text(st, a);
        let t = append(st, a);
        lemma_quoted_piece(t, q, x);
        lemma_chain(st, a, seq![q] + x + seq![q], t, append(t, x));
        assert(opened(st.word) + a + x =~= opened(st.word) + (a + x));
        assert(append(t, x) =~= append(st, a + x));
    } else {
        assert(a + (seq![q] + x + seq![q]) =~= seq![q] + x + seq![q]);
        assert(a + x =~= x);
        lemma_quoted_piece(st, q, x);
    }
}

/// Quoted and unquoted runs with no whitespace between them make one word:
/// the quotes are dropped, everything between them is kept as it is, and the
/// runs join with nothing inserted.
pub proof fn law_quoted_segments_join(
    e: Seq<char>,
    q: char,
    a: Seq<char>,
    x: Seq<char>,
    m: Seq<char>,
    y: Seq<char>,
    b: Seq<char>,
)
    requires
        plain(e) && e.len() > 0,
        is_quote(q),
        plain(a),
        literal_in(x, q),
        plain(m),
        literal_in(y, q),
        plain(b),
    ensures
        parse(e + seq![' '] + a + seq![q] + x + seq![q] + m + seq![q] + y + seq![q] + b) == Ok::<
            Seq<Seq<char>>,
            Fault,
        >(seq![e, a + x + m + y + b]),
{
    let s0 = start();
    let p1 = e + seq![' '];
    let s2 = after_program(e);
    lemma_program(e);
    let p2 = p1 + (a + (seq![q] + x + seq![q]));
    let s3 = append(s2, a + x);
    lemma_lead_then_quoted(s2, a, q, x);
    lemma_chain(s0, p1, a + (seq![q] + x + seq![q]), s2, s3);
    let p3 = p2 + (m + (seq![q] + y + seq![q]));
    let s4 = append(s3, m + y);
    lemma_lead_then_quoted(s3, m, q, y);
    lemma_chain(s0, p2, m + (seq![q] + y + seq![q]), s3, s4);
    let s5 = append(s4, b);
    lemma_bare_text(s4, b);
    lemma_chain(s0, p3, b, s4, s5);
    assert(p3 + b =~= e + seq![' '] + a + seq![q] + x + seq![q] + m + seq![q] + y + seq![q] + b);
    assert(seq![] + (a + x) + (m + y) + b =~= a + x + m + y + b);
    assert(close(s5).words =~= seq![e, a + x + m + y + b]);
}

/// A quote left open at the end of input is reported, with its character.
pub proof fn law_open_quote_is_missing(
    e: Seq<char>,
    q: char,
    a: Seq<char>,
    x: Seq<char>,
    m: Seq<char>,
    y: Seq<char>,
)
    requires
        plain(e) && e.len() > 0,
        is_quote(q),
        plain(a),
        literal_in(x, q),
        plain(m),
        literal_in(y, q),
    ensures
        parse(e + seq![' '] + a + seq![q] + x) == Err::<Seq<Seq<char>>, Fault>(
            Fault::MissingQuote(q),
        ),
        parse(e + seq![' '] + a + seq![q] + x + seq![q] + m + seq![q] + y) == Err::<
            Seq<Seq<char>>,
            Fault,
        >(Fault::MissingQuote(q)),
{
    let s0 = start();
    let p1 = e + seq![' '];
    let s2 = after_program(e);
    lemma_program(e);
    lemma_open_quote_at_end(s0, p1, s2, a, q, x);
    assert(p1 + (a + seq![q] + x) =~= e + seq![' '] + a + seq![q] + x);
    let p2 = p1 + (a + (seq![q] + x + seq![q]));
    let s3 = append(s2, a + x);
    lemma_lead_then_quoted(s2, a, q, x);
    lemma_chain(s0, p1, a + (seq![q] + x + seq![q]), s2, s3);
    lemma_open_quote_at_end(s0, p2, s3, m, q, y);
    assert(p2 + (m + seq![q] + y) =~= e + seq![' '] + a + seq![q] + x + seq![q] + m + seq![q] + y);
}

proof fn lemma_open_quote_at_end(s0: Scan, p: Seq<char>, st: Scan, a: Seq<char>, q: char, x: Seq<char>)
    requires
        s0 == start(),
        run(s0, p) == Ok::<Scan, char>(st),
        st.region is Bare,
        !st.escaping,
        plain(a),
        is_quote(q),
        literal_in(x, q),
    ensures
        parse(p + (a + seq![q] + x)) == Err::<Seq<Seq<char>>, Fault>(Fault::MissingQuote(q)),
{
    let t = if a.len() > 0 { append(st, a) } else { st };
    if a.len() > 0 {
        lemma_bare_text(st, a);
    } else {
        assert(a =~= Seq::<char>::empty());
    }
    lemma_chain(s0, p, a, st, t);
    let u = step(t, q)->Ok_0;
    lemma_run_one(t, q);
    lemma_chain(s0, p + a, seq![q], t, u);
    lemma_quoted_text(u, x, q);
    lemma_chain(s0, p + a + seq![q], x, u, append(u, x));
    assert(p + a + seq![q] + x =~= p + (a + seq![q] + x));
}

/// The state inside double quotes right after a backslash, with `x` read
/// since the quote opened.
proof fn lemma_into_escape(e: Seq<char>, x: Seq<char>)
    requires
        plain(e) && e.len() > 0,
        literal_in(x, '"'),
    ensures
        run(start(), e + seq![' '] + seq!['"'] + x + seq!['\\']) == Ok::<Scan, char>(
            Scan {
                words: seq![e],
                word: Some(seq![] + x),
                region: Region::Double,
                escaping: true,
            },
        ),
{
    let s0 = start();
    let s2 = after_program(e);
    lemma_program(e);
    let u = step(s2, '"')->Ok_0;
    lemma_run_one(s2, '"');
    lemma_chain(s0, e + seq![' '], seq!['"'], s2, u);
    lemma_quoted_text(u, x, '"');
    let v = append(u, x);
    lemma_chain(s0, e + seq![' '] + seq!['"'], x, u, v);
    lemma_run_one(v, '\\');
    lemma_chain(s0, e + seq![' '] + seq!['"'] + x, seq!['\\'], v, step(v, '\\')->Ok_0);
    assert(step(v, '\\')->Ok_0 =~= Scan {
        words: seq![e],
        word: Some(seq![] + x),
        region: Region::Double,
        escaping: true,
    });
}

/// Inside double quotes a backslash followed by anything but a backslash or a
/// double quote is an invalid escape of that character, whatever follows;
/// a backslash that ends the input is an unterminated escape.
pub proof fn law_bad_escapes(e: Seq<char>, x: Seq<char>, c: char, rest: Seq<char>)
    requires
        plain(e) && e.len() > 0,
        literal_in(x, '"'),
        c != '"' && c != '\\',
    ensures
        parse(e + seq![' '] + seq!['"'] + x + seq!['\\'] + seq![c] + rest) == Err::<
            Seq<Seq<char>>,
            Fault,
        >(Fault::InvalidEscape(c)),
        parse(e + seq![' '] + seq!['"'] + x + seq!['\\']) == Err::<Seq<Seq<char>>, Fault>(
            Fault::UnterminatedEscape,
        ),
{
    let p = e + seq![' '] + seq!['"'] + x + seq!['\\'];
    lemma_into_escape(e, x);
    let v = run(start(), p)->Ok_0;
    lemma_run_one(v, c);
    lemma_run_concat(start(), p, seq![c]);
    lemma_run_concat(start(), p + seq![c], rest);
}

/// Inside double quotes a backslash before a backslash or a double quote
/// stands for that character.
pub proof fn law_escapes_in_double_quotes(e: Seq<char>, x: Seq<char>, d: char, y: Seq<char>)
    requires
        plain(e) && e.len() > 0,
        literal_in(x, '"'),
        d == '"' || d == '\\',
        literal_in(y, '"'),
    ensures
        parse(e + seq![' '] + seq!['"'] + x + seq!['\\'] + seq![d] + y + seq!['"']) == Ok::<
            Seq<Seq<char>>,
            Fault,
        >(seq![e, x + seq![d] + y]),
{
    let s0 = start();
    let p = e + seq![' '] + seq!['"'] + x + seq!['\\'];
    lemma_into_escape(e, x);
    let v = run(s0, p)->Ok_0;
    let w = step(v, d)->Ok_0;
    lemma_run_one(v, d);
    lemma_chain(s0, p, seq![d], v, w);
    lemma_quoted_text(w, y, '"');
    let z = append(w, y);
    lemma_chain(s0, p + seq![d], y, w, z);
    lemma_run_one(z, '"');
    let f = step(z, '"')->Ok_0;
    lemma_chain(s0, p + seq![d] + y, seq!['"'], z, f);
    assert(close(f).words =~= seq![e, x + seq![d] + y]);
}

/// A command line that parses has at least one word, the program.
pub proof fn law_program_present(s: Seq<char>)
    ensures
        parse(s) is Ok ==> parse(s)->Ok_0.len() >= 1,
{
}

} // verus!
