use vstd::prelude::*;
use vstd::string::StrSliceExecFns;

verus! {

/// A piece of output: its text, and whether it is a value that colour may wrap.
pub type Span = (Seq<char>, bool);

/// The control sequence that switches the terminal to bright green.
pub open spec fn green_on() -> Seq<char> {
    seq!['\x1b', '[', '9', '2', 'm']
}

/// The control sequence that resets the terminal's colour.
pub open spec fn color_off() -> Seq<char> {
    seq!['\x1b', '[', '0', 'm']
}

/// The text holds no escape character, hence no terminal control sequence.
pub open spec fn no_escape(s: Seq<char>) -> bool {
    forall|i: int| 0 <= i < s.len() ==> s[i] != '\x1b'
}

/// Every character of the text meets `ok`.
pub open spec fn chars_ok(s: Seq<char>, ok: spec_fn(char) -> bool) -> bool {
    forall|i: int| 0 <= i < s.len() ==> ok(#[trigger] s[i])
}

/// A character that is not a terminal control character, or a line break.
pub open spec fn not_control(c: char) -> bool {
    c == '\n' || (' ' <= c && c != '\x7f')
}

/// How one span is written: a value is wrapped in control sequences when colour is on.
pub open spec fn piece(sp: Span, color: bool) -> Seq<char> {
    if sp.1 && color {
        green_on() + sp.0 + color_off()
    } else {
        sp.0
    }
}

/// The text of a sequence of spans, written one after the other.
pub open spec fn show(spans: Seq<Span>, color: bool) -> Seq<char>
    decreases spans.len(),
{
    if spans.len() == 0 {
        Seq::empty()
    } else {
        show(spans.drop_last(), color) + piece(spans.last(), color)
    }
}

/// The text with every colour control sequence taken out.
pub open spec fn strip(s: Seq<char>) -> Seq<char>
    decreases s.len(),
{
    if s.len() == 0 {
        s
    } else if s.len() >= 5 && s.subrange(0, 5) == green_on() {
        strip(s.subrange(5, s.len() as int))
    } else if s.len() >= 4 && s.subrange(0, 4) == color_off() {
        strip(s.subrange(4, s.len() as int))
    } else {
        seq![s[0]] + strip(s.subrange(1, s.len() as int))
    }
}

pub proof fn lemma_show_push(spans: Seq<Span>, sp: Span, color: bool)
    ensures
        show(spans.push(sp), color) == show(spans, color) + piece(sp, color),
{
    assert(spans.push(sp).drop_last() =~= spans);
}

pub proof fn lemma_show_append(a: Seq<Span>, b: Seq<Span>, color: bool)
    ensures
        show(a + b, color) == show(a, color) + show(b, color),
    decreases b.len(),
{
    if b.len() == 0 {
        assert(a + b =~= a);
        assert(show(a, color) + show(b, color) =~= show(a, color));
    } else {
        lemma_show_append(a, b.drop_last(), color);
        assert((a + b).drop_last() =~= a + b.drop_last());
        assert((a + b).last() == b.last());
        assert(show(a, color) + show(b.drop_last(), color) + piece(b.last(), color) =~= show(a, color)
            + (show(b.drop_last(), color) + piece(b.last(), color)));
    }
}

proof fn lemma_strip_plain_prefix(a: Seq<char>, b: Seq<char>)
    requires
        no_escape(a),
    ensures
        strip(a + b) == a + strip(b),
    decreases a.len(),
{
    if a.len() == 0 {
        assert(a + b =~= b);
    } else {
        let s = a + b;
        assert(s[0] == a[0]);
        assert(!(s.len() >= 5 && s.subrange(0, 5) == green_on())) by {
            if s.len() >= 5 {
                assert(s.subrange(0, 5)[0] != green_on()[0]);
            }
        }
        assert(!(s.len() >= 4 && s.subrange(0, 4) == color_off())) by {
            if s.len() >= 4 {
                assert(s.subrange(0, 4)[0] != color_off()[0]);
            }
        }
        let rest = a.subrange(1, a.len() as int);
        assert(s.subrange(1, s.len() as int) =~= rest + b);
        lemma_strip_plain_prefix(rest, b);
        assert(seq![a[0]] + (rest + strip(b)) =~= a + strip(b));
    }
}

proof fn lemma_strip_value(v: Seq<char>, rest: Seq<char>)
    requires
        no_escape(v),
    ensures
        strip(green_on() + v + color_off() + rest) == v + strip(rest),
{
    let s = green_on() + v + color_off() + rest;
    assert(s.subrange(0, 5) =~= green_on());
    let t = s.subrange(5, s.len() as int);
    assert(t =~= v + (color_off() + rest));
    lemma_strip_plain_prefix(v, color_off() + rest);
    let u = color_off() + rest;
    assert(!(u.len() >= 5 && u.subrange(0, 5) == green_on())) by {
        if u.len() >= 5 {
            assert(u.subrange(0, 5)[2] != green_on()[2]);
        }
    }
    assert(u.subrange(0, 4) =~= color_off());
    assert(u.subrange(4, u.len() as int) =~= rest);
}

#[verifier::rlimit(40)]
proof fn lemma_strip_show_prefix(spans: Seq<Span>, rest: Seq<char>)
    requires
        forall|k: int| 0 <= k < spans.len() ==> no_escape(#[trigger] spans[k].0),
    ensures
        strip(show(spans, true) + rest) == show(spans, false) + strip(rest),
    decreases spans.len(),
{
    if spans.len() > 0 {
        let init = spans.drop_last();
        let last = spans.last();
        assert(no_escape(spans[spans.len() - 1].0));
        assert(show(spans, true) == show(init, true) + piece(last, true));
        assert(show(spans, false) == show(init, false) + last.0);
        assert forall|k: int| 0 <= k < init.len() implies no_escape(#[trigger] init[k].0) by {
            assert(init[k] == spans[k]);
        }
        assert(show(spans, true) + rest =~= show(init, true) + (piece(last, true) + rest));
        lemma_strip_show_prefix(init, piece(last, true) + rest);
        if last.1 {
            assert(piece(last, true) + rest =~= green_on() + last.0 + color_off() + rest);
            lemma_strip_value(last.0, rest);
        } else {
            lemma_strip_plain_prefix(last.0, rest);
        }
        assert(show(init, false) + (last.0 + strip(rest)) =~= show(spans, false) + strip(rest));
    } else {
        assert(show(spans, true) + rest =~= rest);
        assert(show(spans, false) + strip(rest) =~= strip(rest));
    }
}

/// Without colour, the text of spans whose characters all meet `ok` is made of
/// such characters only.
pub proof fn lemma_show_plain_chars(spans: Seq<Span>, ok: spec_fn(char) -> bool)
    requires
        forall|k: int| 0 <= k < spans.len() ==> chars_ok(#[trigger] spans[k].0, ok),
    ensures
        chars_ok(show(spans, false), ok),
    decreases spans.len(),
{
    if spans.len() > 0 {
        assert(chars_ok(spans[spans.len() - 1].0, ok));
        lemma_show_plain_chars(spans.drop_last(), ok);
        let a = show(spans.drop_last(), false);
        let b = spans.last().0;
        assert forall|i: int| 0 <= i < (a + b).len() implies ok(#[trigger] (a + b)[i]) by {
            if i < a.len() {
                assert((a + b)[i] == a[i]);
            } else {
                assert((a + b)[i] == b[i - a.len()]);
            }
        }
    }
}

/// Colour is decoration only: spans whose texts hold no escape character are
/// written without control sequences when colour is off, and with colour on they
/// give that same text once the control sequences are taken out.
pub proof fn lemma_color_is_decoration(spans: Seq<Span>)
    requires
        forall|k: int| 0 <= k < spans.len() ==> no_escape(#[trigger] spans[k].0),
    ensures
        no_escape(show(spans, false)),
        strip(show(spans, true)) == show(spans, false),
{
    lemma_show_plain_chars(spans, |c: char| c != '\x1b');
    lemma_strip_show_prefix(spans, Seq::empty());
    assert(show(spans, true) + Seq::<char>::empty() =~= show(spans, true));
    assert(show(spans, false) + strip(Seq::<char>::empty()) =~= show(spans, false));
}

} // verus!

verus! {

/// Whether two texts are the same, character for character.
pub fn same_text(a: &str, b: &str) -> (r: bool)
    ensures
        r == (a@ == b@),
{
    let n = a.unicode_len();
    if n != b.unicode_len() {
        return false;
    }
    let mut i: usize = 0;
    while i < n
        invariant
            i <= n,
            n == a@.len(),
            n == b@.len(),
            forall|k: int| 0 <= k < i ==> a@[k] == b@[k],
        decreases n - i,
    {
        if a.get_char(i) != b.get_char(i) {
            return false;
        }
        i = i + 1;
    }
    assert(a@ =~= b@);
    true
}

} // verus!
