use vstd::prelude::*;

verus! {

/// The Unicode White_Space characters, which `str::trim` removes: they
/// surround a typed choice and may follow a value on a row.
pub open spec fn is_blank(c: char) -> bool {
    ||| '\u{9}' <= c <= '\u{d}'
    ||| c == ' '
    ||| c == '\u{85}'
    ||| c == '\u{a0}'
    ||| c == '\u{1680}'
    ||| '\u{2000}' <= c <= '\u{200a}'
    ||| c == '\u{2028}'
    ||| c == '\u{2029}'
    ||| c == '\u{202f}'
    ||| c == '\u{205f}'
    ||| c == '\u{3000}'
}

/// Whether `c` is a White_Space character.
pub fn blank(c: char) -> (r: bool)
    ensures
        r == is_blank(c),
{
    ('\u{9}' <= c && c <= '\u{d}') || c == ' ' || c == '\u{85}' || c == '\u{a0}' || c
        == '\u{1680}' || ('\u{2000}' <= c && c <= '\u{200a}') || c == '\u{2028}' || c
        == '\u{2029}' || c == '\u{202f}' || c == '\u{205f}' || c == '\u{3000}'
}

/// A raw line without the carriage return that a CRLF line ending leaves.
pub open spec fn line_text(raw: Seq<char>) -> Seq<char> {
    if raw.len() > 0 && raw.last() == '\r' {
        raw.drop_last()
    } else {
        raw
    }
}

/// Reading `s` left to right: the lines finished so far (each without its
/// line ending) and the raw text of the line still open.
pub open spec fn split_state(s: Seq<char>) -> (Seq<Seq<char>>, Seq<char>)
    decreases s.len(),
{
    if s.len() == 0 {
        (Seq::empty(), Seq::empty())
    } else {
        let (done, open) = split_state(s.drop_last());
        if s.last() == '\n' {
            (done.push(line_text(open)), Seq::empty())
        } else {
            (done, open.push(s.last()))
        }
    }
}

/// The lines of `s`: the pieces between line feeds, each without a trailing
/// carriage return. The text after the last line feed is a line too, empty
/// where `s` ends with a line feed.
pub open spec fn lines_of(s: Seq<char>) -> Seq<Seq<char>> {
    let (done, open) = split_state(s);
    done.push(line_text(open))
}

/// Copies `text[start..end]`, leaving out one carriage return at its end.
fn line_at(text: &str, start: usize, end: usize) -> (r: String)
    requires
        start <= end <= text@.len(),
    ensures
        r@ == line_text(text@.subrange(start as int, end as int)),
{
    let mut stop = end;
    if end > start && text.get_char(end - 1) == '\r' {
        stop = end - 1;
    }
    let piece = text.substring_char(start, stop);
    proof {
        let raw = text@.subrange(start as int, end as int);
        if end > start && text@[end - 1] == '\r' {
            assert(raw.drop_last() =~= text@.subrange(start as int, stop as int));
        }
    }
    String::from_str(piece)
}

/// Splits `text` into its lines.
pub fn split_lines(text: &str) -> (r: Vec<String>)
    ensures
        r.deep_view() == lines_of(text@),
{
    let n = text.unicode_len();
    let mut out: Vec<String> = Vec::new();
    let mut start: usize = 0;
    let mut i: usize = 0;
    while i < n
        invariant
            n == text@.len(),
            start <= i <= n,
            split_state(text@.subrange(0, i as int)) == (
            out.deep_view(),
            text@.subrange(start as int, i as int),
            ),
        decreases n - i,
    {
        let c = text.get_char(i);
        let ghost prev = text@.subrange(0, i as int);
        let ghost open = text@.subrange(start as int, i as int);
        assert(text@.subrange(0, i + 1).drop_last() =~= prev);
        if c == '\n' {
            let line = line_at(text, start, i);
            let ghost before = out.deep_view();
            out.push(line);
            assert(out.deep_view() =~= before.push(line_text(open)));
            start = i + 1;
            assert(text@.subrange(start as int, i + 1) =~= Seq::<char>::empty());
        } else {
            assert(text@.subrange(start as int, i + 1) =~= open.push(c));
        }
        i = i + 1;
    }
    assert(text@.subrange(0, n as int) =~= text@);
    let last = line_at(text, start, n);
    let ghost before = out.deep_view();
    out.push(last);
    assert(out.deep_view() =~= before.push(line_text(text@.subrange(start as int, n as int))));
    out
}

/// The text whose lines are `ls`: the lines with a line feed between each
/// two.
pub open spec fn joined(ls: Seq<Seq<char>>) -> Seq<char>
    decreases ls.len(),
{
    if ls.len() == 0 {
        Seq::empty()
    } else if ls.len() == 1 {
        ls[0]
    } else {
        joined(ls.drop_last()) + seq!['\n'] + ls.last()
    }
}

/// A line that holds no line feed and does not end with a carriage return.
pub open spec fn plain_line(l: Seq<char>) -> bool {
    &&& forall|i: int| 0 <= i < l.len() ==> #[trigger] l[i] != '\n'
    &&& !(l.len() > 0 && l.last() == '\r')
}

proof fn lemma_split_append(p: Seq<char>, q: Seq<char>)
    requires
        forall|i: int| 0 <= i < q.len() ==> #[trigger] q[i] != '\n',
    ensures
        split_state(p + q) == (split_state(p).0, split_state(p).1 + q),
    decreases q.len(),
{
    if q.len() == 0 {
        assert(p + q =~= p);
        assert(split_state(p).1 + q =~= split_state(p).1);
    } else {
        lemma_split_append(p, q.drop_last());
        assert((p + q).drop_last() =~= p + q.drop_last());
        assert((split_state(p).1 + q.drop_last()).push(q.last()) =~= split_state(p).1 + q);
    }
}

proof fn lemma_split_joined(ls: Seq<Seq<char>>)
    requires
        ls.len() >= 1,
        forall|k: int| 0 <= k < ls.len() ==> plain_line(#[trigger] ls[k]),
    ensures
        split_state(joined(ls)) == (ls.drop_last(), ls.last()),
    decreases ls.len(),
{
    if ls.len() == 1 {
        lemma_split_append(Seq::empty(), ls[0]);
        assert(Seq::<char>::empty() + ls[0] =~= ls[0]);
        assert(ls.drop_last() =~= Seq::<Seq<char>>::empty());
        assert(Seq::<char>::empty() + ls[0] =~= ls[0]);
    } else {
        let front = ls.drop_last();
        lemma_split_joined(front);
        let j = joined(front);
        assert(plain_line(front.last()));
        assert(j + seq!['\n'] =~= j.push('\n'));
        assert(j.push('\n').drop_last() =~= j);
        assert(front.drop_last().push(front.last()) =~= front);
        assert(split_state(j.push('\n')) == (front, Seq::<char>::empty()));
        assert(plain_line(ls.last()));
        lemma_split_append(j.push('\n'), ls.last());
        assert(Seq::<char>::empty() + ls.last() =~= ls.last());
    }
}

/// Splitting a text joined from lines gives those lines back, where none
/// holds a line feed or ends with a carriage return.
pub proof fn lemma_lines_of_joined(ls: Seq<Seq<char>>)
    requires
        ls.len() >= 1,
        forall|k: int| 0 <= k < ls.len() ==> plain_line(#[trigger] ls[k]),
    ensures
        lines_of(joined(ls)) == ls,
{
    lemma_split_joined(ls);
    assert(plain_line(ls.last()));
    assert(ls.drop_last().push(ls.last()) =~= ls);
}

} // verus!
