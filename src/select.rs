use vstd::prelude::*;

use crate::config::{option_views, SecretValue, SecretValueView};
use crate::text::{blank, is_blank};

verus! {

/// The number of blanks in `s` from index `i` on, up to the first other
/// character.
pub open spec fn blank_run(s: Seq<char>, i: int) -> nat
    decreases s.len() - i,
{
    if 0 <= i < s.len() && is_blank(s[i]) {
        1 + blank_run(s, i + 1)
    } else {
        0
    }
}

/// The number of blanks in `s` that end just before index `j`.
pub open spec fn blank_run_back(s: Seq<char>, j: int) -> nat
    decreases j,
{
    if 0 < j <= s.len() && is_blank(s[j - 1]) {
        1 + blank_run_back(s, j - 1)
    } else {
        0
    }
}

/// `s` without its leading and trailing blanks.
pub open spec fn trimmed(s: Seq<char>) -> Seq<char> {
    let lo = blank_run(s, 0);
    if lo == s.len() {
        Seq::empty()
    } else {
        s.subrange(lo as int, s.len() - blank_run_back(s, s.len() as int))
    }
}

/// `t` without one leading plus sign.
pub open spec fn unsigned(t: Seq<char>) -> Seq<char> {
    if t.len() > 0 && t[0] == '+' {
        t.drop_first()
    } else {
        t
    }
}

/// A decimal digit.
pub open spec fn is_digit(c: char) -> bool {
    '0' <= c <= '9'
}

/// The number that the decimal digits `d` write.
pub open spec fn digits_value(d: Seq<char>) -> nat
    decreases d.len(),
{
    if d.len() == 0 {
        0
    } else {
        10 * digits_value(d.drop_last()) + (d.last() as u32 - '0' as u32) as nat
    }
}

/// The index that a typed line `s` chooses among `len` entries: after
/// trimming blanks, an optional plus sign and at least one decimal digit,
/// writing a number below `len`. `None` for anything else.
pub open spec fn choice_of(s: Seq<char>, len: nat) -> Option<nat> {
    let d = unsigned(trimmed(s));
    if d.len() > 0 && (forall|i: int| 0 <= i < d.len() ==> is_digit(#[trigger] d[i]))
        && digits_value(d) < len {
        Some(digits_value(d))
    } else {
        None
    }
}

fn skip_blanks(s: &str, n: usize) -> (lo: usize)
    requires
        n == s@.len(),
    ensures
        lo == blank_run(s@, 0),
        lo <= n,
        lo < n ==> !is_blank(s@[lo as int]),
{
    let mut lo: usize = 0;
    while lo < n
        invariant
            n == s@.len(),
            lo <= n,
            blank_run(s@, 0) == lo + blank_run(s@, lo as int),
        ensures
            lo <= n,
            blank_run(s@, 0) == lo,
            lo < n ==> !is_blank(s@[lo as int]),
        decreases n - lo,
    {
        if !blank(s.get_char(lo)) {
            break;
        }
        lo = lo + 1;
    }
    lo
}

fn skip_blanks_back(s: &str, n: usize, lo: usize) -> (hi: usize)
    requires
        n == s@.len(),
        lo < n,
        !is_blank(s@[lo as int]),
    ensures
        hi == n - blank_run_back(s@, n as int),
        lo < hi <= n,
{
    let mut hi: usize = n;
    while hi > lo + 1
        invariant
            n == s@.len(),
            lo < hi <= n,
            !is_blank(s@[lo as int]),
            blank_run_back(s@, n as int) == (n - hi) + blank_run_back(s@, hi as int),
        ensures
            lo < hi <= n,
            blank_run_back(s@, n as int) == n - hi,
        decreases hi,
    {
        if !blank(s.get_char(hi - 1)) {
            break;
        }
        hi = hi - 1;
    }
    hi
}

proof fn lemma_digits_grow(d: Seq<char>, c: char)
    requires
        is_digit(c),
    ensures
        digits_value(d.push(c)) == 10 * digits_value(d) + (c as u32 - '0' as u32),
        digits_value(d.push(c)) >= digits_value(d),
{
    assert(d.push(c).drop_last() =~= d);
}

/// Reads the index that the typed line `input` chooses among `len` entries.
pub fn read_choice(input: &str, len: usize) -> (r: Option<usize>)
    ensures
        r is Some == choice_of(input@, len as nat) is Some,
        r is Some ==> r->0 as nat == choice_of(input@, len as nat)->0,
        r matches Some(k) ==> k < len,
{
    if len == 0 {
        return None;
    }
    let n = input.unicode_len();
    let lo = skip_blanks(input, n);
    if lo == n {
        return None;
    }
    let hi = skip_blanks_back(input, n, lo);
    let ghost t = input@.subrange(lo as int, hi as int);
    assert(trimmed(input@) == t);
    let mut start = lo;
    if input.get_char(lo) == '+' {
        start = lo + 1;
    }
    let ghost d = input@.subrange(start as int, hi as int);
    assert(unsigned(t) =~= d);
    if start == hi {
        return None;
    }
    let mut acc: usize = 0;
    let mut big = false;
    let mut k = start;
    assert(input@.subrange(start as int, start as int) =~= Seq::<char>::empty());
    while k < hi
        invariant
            n == input@.len(),
            start <= k <= hi <= n,
            d == input@.subrange(start as int, hi as int),
            d == unsigned(trimmed(input@)),
            forall|i: int| start <= i < k ==> is_digit(#[trigger] input@[i]),
            big ==> digits_value(input@.subrange(start as int, k as int)) >= len,
            !big ==> acc == digits_value(input@.subrange(start as int, k as int)) && acc < len,
        decreases hi - k,
    {
        let c = input.get_char(k);
        if !('0' <= c && c <= '9') {
            assert(!is_digit(d[k - start]));
            return None;
        }
        proof {
            lemma_digits_grow(input@.subrange(start as int, k as int), c);
            assert(input@.subrange(start as int, k + 1) =~= input@.subrange(start as int, k as int).push(c));
        }
        if !big {
            let next: u128 = acc as u128 * 10 + (c as u32 - '0' as u32) as u128;
            if next >= len as u128 {
                big = true;
            } else {
                acc = next as usize;
            }
        }
        k = k + 1;
    }
    assert forall|i: int| 0 <= i < d.len() implies is_digit(#[trigger] d[i]) by {
        assert(d[i] == input@[start + i]);
    }
    if big {
        None
    } else {
        Some(acc)
    }
}

/// A typed line chooses only an index below the number of entries; a line
/// that starts with a minus sign, or writes a number that is not below it,
/// chooses nothing.
pub proof fn lemma_choice_in_range(s: Seq<char>, len: nat)
    ensures
        choice_of(s, len) matches Some(k) ==> k < len,
        trimmed(s).len() > 0 && trimmed(s)[0] == '-' ==> choice_of(s, len) is None,
        digits_value(unsigned(trimmed(s))) >= len ==> choice_of(s, len) is None,
{
    let t = trimmed(s);
    if t.len() > 0 && t[0] == '-' {
        assert(unsigned(t) == t);
        assert(!is_digit(unsigned(t)[0]));
    }
}

/// What one typed line does to a prompt for an index among some entries.
#[derive(PartialEq, Eq, Structural, Clone, Copy, Debug)]
pub enum Prompt {
    /// The line chose this index.
    Accepted(usize),
    /// The line chose nothing: report it and prompt again.
    Retry,
    /// The input ended before an index was chosen.
    EndOfInput,
}

/// The outcome of a prompt among `len` entries for `line`, or for the end
/// of the input where `line` is `None`.
pub open spec fn prompt_outcome(line: Option<Seq<char>>, len: nat) -> Prompt {
    match line {
        None => Prompt::EndOfInput,
        Some(s) => match choice_of(s, len) {
            Some(k) => Prompt::Accepted(k as usize),
            None => Prompt::Retry,
        },
    }
}

/// Decides what the typed line `line` does to a prompt among `len` entries.
pub fn on_line(line: Option<&str>, len: usize) -> (r: Prompt)
    ensures
        r == prompt_outcome(
            match line {
                Some(s) => Some(s@),
                None => None,
            },
            len as nat,
        ),
        r matches Prompt::Accepted(k) ==> k < len,
{
    match line {
        None => Prompt::EndOfInput,
        Some(s) => match read_choice(s, len) {
            Some(k) => Prompt::Accepted(k),
            None => Prompt::Retry,
        },
    }
}

/// Whether a value option belongs to the secret `secret`.
pub open spec fn belongs_to(secret: Seq<char>) -> spec_fn(SecretValueView) -> bool {
    |o: SecretValueView| o.secret == secret
}

/// A copy of a value option.
pub fn copy_option(o: &SecretValue) -> (r: SecretValue)
    ensures
        r@ == o@,
{
    SecretValue { value: o.value.clone(), name: o.name.clone(), secret: o.secret.clone() }
}

/// The value options of the secret `secret`, in their order in `options`.
pub fn values_for(options: &Vec<SecretValue>, secret: &str) -> (r: Vec<SecretValue>)
    ensures
        option_views(r@) == option_views(options@).filter(belongs_to(secret@)),
{
    let wanted = String::from_str(secret);
    let mut out: Vec<SecretValue> = Vec::new();
    let mut k: usize = 0;
    let ghost all = option_views(options@);
    assert(all.take(0) =~= Seq::<SecretValueView>::empty());
    assert(option_views(out@) =~= Seq::<SecretValueView>::empty());
    proof {
        reveal(Seq::filter);
    }
    while k < options.len()
        invariant
            k <= options@.len(),
            wanted@ == secret@,
            all == option_views(options@),
            option_views(out@) == all.take(k as int).filter(belongs_to(secret@)),
        decreases options@.len() - k,
    {
        let ghost before = option_views(out@);
        proof {
            assert(all.take(k + 1) =~= all.take(k as int).push(options@[k as int]@));
            all.take(k as int).lemma_filter_push(options@[k as int]@, belongs_to(secret@));
        }
        if options[k].secret.eq(&wanted) {
            let o = copy_option(&options[k]);
            out.push(o);
            assert(option_views(out@) =~= before.push(options@[k as int]@));
        }
        k = k + 1;
    }
    assert(all.take(k as int) =~= all);
    out
}

/// The line for the shell: `export <secret>=<value>`.
pub open spec fn export_text(secret: Seq<char>, value: Seq<char>) -> Seq<char> {
    seq!['e', 'x', 'p', 'o', 'r', 't', ' '] + secret + seq!['='] + value
}

/// The line for the user: `Setting <label> value for <secret>`.
pub open spec fn status_text(label: Seq<char>, secret: Seq<char>) -> Seq<char> {
    seq!['S', 'e', 't', 't', 'i', 'n', 'g', ' '] + label + seq![
        ' ',
        'v',
        'a',
        'l',
        'u',
        'e',
        ' ',
        'f',
        'o',
        'r',
        ' ',
    ] + secret
}

/// Renders the assignment of `value` to `secret` for the shell to evaluate.
pub fn export_line(secret: &str, value: &str) -> (r: String)
    ensures
        r@ == export_text(secret@, value@),
{
    proof {
        reveal_strlit("export ");
        reveal_strlit("=");
    }
    let mut r = String::from_str("export ");
    r.append(secret);
    r.append("=");
    r.append(value);
    assert(r@ =~= export_text(secret@, value@));
    r
}

/// Renders the message that tells the user which value is being set.
pub fn status_line(label: &str, secret: &str) -> (r: String)
    ensures
        r@ == status_text(label@, secret@),
{
    proof {
        reveal_strlit("Setting ");
        reveal_strlit(" value for ");
    }
    let mut r = String::from_str("Setting ");
    r.append(label);
    r.append(" value for ");
    r.append(secret);
    assert(r@ =~= status_text(label@, secret@));
    r
}

} // verus!
