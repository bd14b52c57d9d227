use vstd::prelude::*;

use crate::text::{blank, is_blank, joined, lemma_lines_of_joined, lines_of, plain_line, split_lines};

verus! {

/// What `char::is_alphanumeric` returns for a character.
pub uninterp spec fn alnum_of(c: char) -> bool;

/// Relies on `char::is_alphanumeric`: whether `c` is a letter or a digit in
/// the Unicode sense. Among ASCII characters exactly the letters and the
/// digits are.
#[verifier::external_body]
fn alphanumeric(c: char) -> (r: bool)
    ensures
        r == alnum_of(c),
        ('a' <= c <= 'z' || 'A' <= c <= 'Z' || '0' <= c <= '9') ==> r,
        (c as u32) < 128 && !('a' <= c <= 'z' || 'A' <= c <= 'Z' || '0' <= c <= '9') ==> !r,
{
    c.is_alphanumeric()
}

/// Characters allowed in a label, a secret name and an unquoted value:
/// letters, digits and the underscore.
pub open spec fn is_word(c: char) -> bool {
    alnum_of(c) || c == '_'
}

/// Whether `c` is a word character.
fn word(c: char) -> (r: bool)
    ensures
        r == is_word(c),
{
    c == '_' || alphanumeric(c)
}

/// The line that opens and closes the block of secret names.
pub open spec fn secrets_marker() -> Seq<char> {
    seq!['-', '-', 's', 'e', 'c', 'r', 'e', 't', 's']
}

/// The line that opens and closes the block of value options.
pub open spec fn values_marker() -> Seq<char> {
    seq!['-', '-', 'v', 'a', 'l', 'u', 'e', 's']
}

/// Where a scan for a marker-delimited block stands after some lines.
#[derive(PartialEq, Eq, Structural, Clone, Copy, Debug)]
pub enum Scan {
    /// No marker line seen yet.
    Seeking,
    /// The block was opened by the marker line at this index.
    Open(usize),
    /// The block was opened and closed by the marker lines at these indices.
    Closed(usize, usize),
    /// A third marker line came after the block was closed.
    Repeated,
}

/// The scan after line `i`, which is a marker line or not.
pub open spec fn scan_step(st: Scan, i: usize, is_marker: bool) -> Scan {
    if !is_marker {
        st
    } else {
        match st {
            Scan::Seeking => Scan::Open(i),
            Scan::Open(a) => Scan::Closed(a, i),
            _ => Scan::Repeated,
        }
    }
}

/// The scan over all of `lines` for blocks delimited by `marker`.
pub open spec fn scan_lines(lines: Seq<Seq<char>>, marker: Seq<char>) -> Scan
    decreases lines.len(),
{
    if lines.len() == 0 {
        Scan::Seeking
    } else {
        scan_step(
            scan_lines(lines.drop_last(), marker),
            (lines.len() - 1) as usize,
            lines.last() == marker,
        )
    }
}

/// Scans `lines` for the block delimited by the line `marker`.
pub fn scan_block(lines: &Vec<String>, marker: &str) -> (r: Scan)
    ensures
        r == scan_lines(lines.deep_view(), marker@),
        r matches Scan::Closed(a, b) ==> a < b < lines@.len(),
{
    let wanted = String::from_str(marker);
    let mut st = Scan::Seeking;
    let mut i: usize = 0;
    let ghost all = lines.deep_view();
    while i < lines.len()
        invariant
            i <= lines@.len(),
            all == lines.deep_view(),
            wanted@ == marker@,
            st == scan_lines(all.take(i as int), marker@),
            st matches Scan::Open(a) ==> a < i,
            st matches Scan::Closed(a, b) ==> a < b < i,
        decreases lines@.len() - i,
    {
        assert(all.take(i + 1).drop_last() =~= all.take(i as int));
        let is_marker = lines[i].eq(&wanted);
        assert(all.take(i + 1).last() == lines@[i as int]@);
        st = match st {
            Scan::Seeking => if is_marker { Scan::Open(i) } else { Scan::Seeking },
            Scan::Open(a) => if is_marker { Scan::Closed(a, i) } else { Scan::Open(a) },
            Scan::Closed(a, b) => if is_marker { Scan::Repeated } else { Scan::Closed(a, b) },
            Scan::Repeated => Scan::Repeated,
        };
        i = i + 1;
    }
    assert(all.take(i as int) =~= all);
    st
}

/// One candidate value for a secret: a row `label:secret=value` of the
/// values block.
#[derive(Clone, Debug)]
pub struct SecretValue {
    /// The literal text to assign, with its quotes where it was quoted.
    pub value: String,
    /// The label shown to the user.
    pub name: String,
    /// The name of the secret that the value belongs to.
    pub secret: String,
}

/// The text of a value option's three fields.
pub struct SecretValueView {
    pub name: Seq<char>,
    pub secret: Seq<char>,
    pub value: Seq<char>,
}

impl View for SecretValue {
    type V = SecretValueView;

    open spec fn view(&self) -> SecretValueView {
        SecretValueView { name: self.name@, secret: self.secret@, value: self.value@ }
    }
}

/// The number of word characters in `l` from index `i` on, up to the first
/// other character.
pub open spec fn word_run(l: Seq<char>, i: int) -> nat
    decreases l.len() - i,
{
    if 0 <= i < l.len() && is_word(l[i]) {
        1 + word_run(l, i + 1)
    } else {
        0
    }
}

/// The number of characters in `l` from index `i` on, up to the first
/// double quote.
pub open spec fn quoted_run(l: Seq<char>, i: int) -> nat
    decreases l.len() - i,
{
    if 0 <= i < l.len() && l[i] != '"' {
        1 + quoted_run(l, i + 1)
    } else {
        0
    }
}

/// Whether every character of `l` from index `i` on is blank.
pub open spec fn blank_from(l: Seq<char>, i: int) -> bool {
    forall|k: int| i <= k < l.len() ==> is_blank(#[trigger] l[k])
}

/// Where the value that starts at index `c` of `l` ends (exclusive): a
/// double-quoted string, quotes included, or a nonempty run of word
/// characters. `None` where neither starts there.
pub open spec fn value_end(l: Seq<char>, c: int) -> Option<int> {
    if 0 <= c < l.len() && l[c] == '"' {
        let q = c + 1 + quoted_run(l, c + 1);
        if q < l.len() {
            Some(q + 1)
        } else {
            None
        }
    } else {
        let d = word_run(l, c);
        if d > 0 {
            Some(c + d)
        } else {
            None
        }
    }
}

/// The value option that a row `label:secret=value` describes, where `label`
/// and `secret` are nonempty runs of word characters and only blanks follow
/// the value; `None` for any other row.
pub open spec fn row_of(l: Seq<char>) -> Option<SecretValueView> {
    let a = word_run(l, 0) as int;
    let e = a + 1 + word_run(l, a + 1);
    if a == 0 || a >= l.len() || l[a] != ':' || e == a + 1 || e >= l.len() || l[e] != '=' {
        None
    } else if value_end(l, e + 1) is Some && blank_from(l, value_end(l, e + 1)->0) {
        Some(
            SecretValueView {
                name: l.subrange(0, a),
                secret: l.subrange(a + 1, e),
                value: l.subrange(e + 1, value_end(l, e + 1)->0),
            },
        )
    } else {
        None
    }
}

fn word_end(l: &str, n: usize, i: usize) -> (j: usize)
    requires
        n == l@.len(),
        i <= n,
    ensures
        j == i + word_run(l@, i as int),
        j <= n,
{
    let mut j = i;
    while j < n
        invariant
            n == l@.len(),
            i <= j <= n,
            word_run(l@, i as int) == (j - i) + word_run(l@, j as int),
        ensures
            i <= j <= n,
            word_run(l@, i as int) == j - i,
        decreases n - j,
    {
        if !word(l.get_char(j)) {
            break;
        }
        j = j + 1;
    }
    j
}

fn quoted_end(l: &str, n: usize, i: usize) -> (j: usize)
    requires
        n == l@.len(),
        i <= n,
    ensures
        j == i + quoted_run(l@, i as int),
        j <= n,
{
    let mut j = i;
    while j < n
        invariant
            n == l@.len(),
            i <= j <= n,
            quoted_run(l@, i as int) == (j - i) + quoted_run(l@, j as int),
        ensures
            i <= j <= n,
            quoted_run(l@, i as int) == j - i,
        decreases n - j,
    {
        if l.get_char(j) == '"' {
            break;
        }
        j = j + 1;
    }
    j
}

fn blank_tail(l: &str, n: usize, i: usize) -> (r: bool)
    requires
        n == l@.len(),
        i <= n,
    ensures
        r == blank_from(l@, i as int),
{
    let mut j = i;
    while j < n
        invariant
            n == l@.len(),
            i <= j <= n,
            blank_from(l@, i as int) == blank_from(l@, j as int),
        decreases n - j,
    {
        if !blank(l.get_char(j)) {
            return false;
        }
        j = j + 1;
    }
    true
}

fn end_of_value(l: &str, n: usize, c: usize) -> (r: Option<usize>)
    requires
        n == l@.len(),
        c <= n,
    ensures
        r matches Some(z) ==> z <= n,
        r is Some == value_end(l@, c as int) is Some,
        r is Some ==> r->0 == value_end(l@, c as int)->0,
{
    if c < n && l.get_char(c) == '"' {
        let q = quoted_end(l, n, c + 1);
        if q < n {
            Some(q + 1)
        } else {
            None
        }
    } else {
        let d = word_end(l, n, c);
        if d > c {
            Some(d)
        } else {
            None
        }
    }
}

/// Reads one row of the values block.
pub fn parse_row(line: &str) -> (r: Option<SecretValue>)
    ensures
        r is Some == row_of(line@) is Some,
        r is Some ==> r->0@ == row_of(line@)->0,
{
    let n = line.unicode_len();
    let a = word_end(line, n, 0);
    if a == 0 || a >= n || line.get_char(a) != ':' {
        return None;
    }
    let e = word_end(line, n, a + 1);
    if e == a + 1 || e >= n || line.get_char(e) != '=' {
        return None;
    }
    match end_of_value(line, n, e + 1) {
        Some(z) => {
            if blank_tail(line, n, z) {
                Some(
                    SecretValue {
                        value: String::from_str(line.substring_char(e + 1, z)),
                        name: String::from_str(line.substring_char(0, a)),
                        secret: String::from_str(line.substring_char(a + 1, e)),
                    },
                )
            } else {
                None
            }
        },
        None => None,
    }
}

/// Why a configuration text could not be read.
#[derive(Clone, Debug)]
pub enum ConfigError {
    /// No line `--secrets` opens and closes a block with at least one line
    /// inside.
    NoSecrets,
    /// A line `--secrets` follows the closed block of secret names.
    RepeatedSecrets,
    /// No line `--values` opens and closes a block with at least one line
    /// inside.
    NoValues,
    /// A line `--values` follows the closed block of value options.
    RepeatedValues,
    /// This nonempty line of the values block is no row `label:secret=value`.
    BadRow(String),
}

impl ConfigError {
    /// A description of the error for the user.
    pub fn message(&self) -> (r: String)
        ensures
            r@ == match self {
                ConfigError::NoSecrets => "no secrets found"@,
                ConfigError::RepeatedSecrets => "more than one secrets block"@,
                ConfigError::NoValues => "no values found"@,
                ConfigError::RepeatedValues => "more than one values block"@,
                ConfigError::BadRow(row) => "unable to parse row "@ + row@,
            },
    {
        match self {
            ConfigError::NoSecrets => String::from_str("no secrets found"),
            ConfigError::RepeatedSecrets => String::from_str("more than one secrets block"),
            ConfigError::NoValues => String::from_str("no values found"),
            ConfigError::RepeatedValues => String::from_str("more than one values block"),
            ConfigError::BadRow(row) => {
                let mut r = String::from_str("unable to parse row ");
                r.append(row.as_str());
                r
            },
        }
    }
}

/// What a configuration error says, over the text of the offending row.
pub enum ConfigFault {
    NoSecrets,
    RepeatedSecrets,
    NoValues,
    RepeatedValues,
    BadRow(Seq<char>),
}

impl View for ConfigError {
    type V = ConfigFault;

    open spec fn view(&self) -> ConfigFault {
        match self {
            ConfigError::NoSecrets => ConfigFault::NoSecrets,
            ConfigError::RepeatedSecrets => ConfigFault::RepeatedSecrets,
            ConfigError::NoValues => ConfigFault::NoValues,
            ConfigError::RepeatedValues => ConfigFault::RepeatedValues,
            ConfigError::BadRow(row) => ConfigFault::BadRow(row@),
        }
    }
}

/// The secret names and the value options of a configuration, in file order.
#[derive(Clone, Debug)]
pub struct Config {
    pub secrets: Vec<String>,
    pub values: Vec<SecretValue>,
}

/// The text of a configuration's names and value options.
pub struct ConfigView {
    pub secrets: Seq<Seq<char>>,
    pub values: Seq<SecretValueView>,
}

impl View for Config {
    type V = ConfigView;

    open spec fn view(&self) -> ConfigView {
        ConfigView { secrets: self.secrets.deep_view(), values: option_views(self.values@) }
    }
}

/// The views of a sequence of value options.
pub open spec fn option_views(v: Seq<SecretValue>) -> Seq<SecretValueView> {
    v.map_values(|o: SecretValue| o@)
}

/// The nonempty lines of a block, in order: the secret names it lists.
pub open spec fn names_in(block: Seq<Seq<char>>) -> Seq<Seq<char>> {
    block.filter(|l: Seq<char>| l.len() > 0)
}

/// The value options that the nonempty lines of a block describe, in order,
/// or the first nonempty line that is no row.
pub open spec fn rows_in(block: Seq<Seq<char>>) -> Result<Seq<SecretValueView>, Seq<char>>
    decreases block.len(),
{
    if block.len() == 0 {
        Ok(Seq::empty())
    } else {
        match rows_in(block.drop_last()) {
            Err(bad) => Err(bad),
            Ok(done) => {
                let l = block.last();
                if l.len() == 0 {
                    Ok(done)
                } else {
                    match row_of(l) {
                        Some(o) => Ok(done.push(o)),
                        None => Err(l),
                    }
                }
            },
        }
    }
}

proof fn lemma_rows_error_kept(block: Seq<Seq<char>>, k: int, j: int)
    requires
        0 <= k <= j <= block.len(),
        rows_in(block.take(k)) is Err,
    ensures
        rows_in(block.take(j)) == rows_in(block.take(k)),
    decreases j - k,
{
    if j > k {
        lemma_rows_error_kept(block, k, j - 1);
        assert(block.take(j).drop_last() =~= block.take(j - 1));
    }
}

/// The lines `all[a + 1 .. b]`, copied, without the empty ones.
fn nonempty_lines(lines: &Vec<String>, a: usize, b: usize) -> (r: Vec<String>)
    requires
        a < b <= lines@.len(),
    ensures
        r.deep_view() == names_in(lines.deep_view().subrange(a + 1, b as int)),
{
    let ghost all = lines.deep_view();
    let mut out: Vec<String> = Vec::new();
    let mut k = a + 1;
    while k < b
        invariant
            a < k <= b <= lines@.len(),
            all == lines.deep_view(),
            out.deep_view() == names_in(all.subrange(a + 1, k as int)),
        decreases b - k,
    {
        let ghost before = out.deep_view();
        assert(all.subrange(a + 1, k + 1) =~= all.subrange(a + 1, k as int).push(all[k as int]));
        proof {
            all.subrange(a + 1, k as int).lemma_filter_push(all[k as int], |l: Seq<char>| l.len() > 0);
        }
        if !lines[k].as_str().is_empty() {
            out.push(lines[k].clone());
            assert(out.deep_view() =~= before.push(all[k as int]));
        }
        k = k + 1;
    }
    out
}

/// The value options of the rows `all[a + 1 .. b]`, or the first nonempty
/// line there that is no row.
fn rows_between(lines: &Vec<String>, a: usize, b: usize) -> (r: Result<Vec<SecretValue>, String>)
    requires
        a < b <= lines@.len(),
    ensures
        ({
            let block = lines.deep_view().subrange(a + 1, b as int);
            match rows_in(block) {
                Ok(opts) => r matches Ok(v) && option_views(v@) == opts,
                Err(bad) => r matches Err(row) && row@ == bad,
            }
        }),
{
    let ghost all = lines.deep_view();
    let ghost block = all.subrange(a + 1, b as int);
    let mut out: Vec<SecretValue> = Vec::new();
    let mut k = a + 1;
    assert(block.take(0) =~= Seq::<Seq<char>>::empty());
    assert(option_views(out@) =~= Seq::<SecretValueView>::empty());
    while k < b
        invariant
            a < k <= b <= lines@.len(),
            all == lines.deep_view(),
            block == all.subrange(a + 1, b as int),
            rows_in(block.take(k - (a + 1))) == Ok::<Seq<SecretValueView>, Seq<char>>(
                option_views(out@),
            ),
        decreases b - k,
    {
        let ghost i = k - (a + 1);
        let ghost before = option_views(out@);
        assert(block.take(i + 1).drop_last() =~= block.take(i));
        assert(block.take(i + 1).last() == lines@[k as int]@);
        if !lines[k].as_str().is_empty() {
            match parse_row(lines[k].as_str()) {
                Some(o) => {
                    out.push(o);
                    assert(option_views(out@) =~= before.push(o@));
                },
                None => {
                    proof {
                        lemma_rows_error_kept(block, i + 1, block.len() as int);
                        assert(block.take(block.len() as int) =~= block);
                    }
                    return Err(lines[k].clone());
                },
            }
        }
        k = k + 1;
    }
    assert(block.take(b - (a + 1)) =~= block);
    Ok(out)
}

/// Reads the secret names: the nonempty lines of the block between the two
/// lines `--secrets`, in order.
pub fn parse_secret_names(file: &str) -> (r: Result<Vec<String>, ConfigError>)
    ensures
        names_view(r) == secret_names_of(file@),
{
    let lines = split_lines(file);
    proof {
        reveal_strlit("--secrets");
    }
    assert("--secrets"@ =~= secrets_marker());
    match scan_block(&lines, "--secrets") {
        Scan::Closed(a, b) => if b > a + 1 {
            Ok(nonempty_lines(&lines, a, b))
        } else {
            Err(ConfigError::NoSecrets)
        },
        Scan::Repeated => Err(ConfigError::RepeatedSecrets),
        _ => Err(ConfigError::NoSecrets),
    }
}

/// Reads the value options: one for each nonempty line of the block between
/// the two lines `--values`, in order. Fails on the first nonempty line there
/// that is no row `label:secret=value`.
pub fn parse_secret_options(file: &str) -> (r: Result<Vec<SecretValue>, ConfigError>)
    ensures
        options_view(r) == value_options_of(file@),
{
    let lines = split_lines(file);
    proof {
        reveal_strlit("--values");
    }
    assert("--values"@ =~= values_marker());
    match scan_block(&lines, "--values") {
        Scan::Closed(a, b) => if b > a + 1 {
            match rows_between(&lines, a, b) {
                Ok(v) => Ok(v),
                Err(row) => Err(ConfigError::BadRow(row)),
            }
        } else {
            Err(ConfigError::NoValues)
        },
        Scan::Repeated => Err(ConfigError::RepeatedValues),
        _ => Err(ConfigError::NoValues),
    }
}

/// The secret names that the configuration text `text` lists: the nonempty
/// lines between the two lines `--secrets`, in order. The two marker lines
/// must hold at least one line between them.
pub open spec fn secret_names_of(text: Seq<char>) -> Result<Seq<Seq<char>>, ConfigFault> {
    let lines = lines_of(text);
    match scan_lines(lines, secrets_marker()) {
        Scan::Closed(a, b) => if b > a + 1 {
            Ok(names_in(lines.subrange(a + 1, b as int)))
        } else {
            Err(ConfigFault::NoSecrets)
        },
        Scan::Repeated => Err(ConfigFault::RepeatedSecrets),
        _ => Err(ConfigFault::NoSecrets),
    }
}

/// The value options that the configuration text `text` lists: one for each
/// nonempty line between the two lines `--values`, in order; the first such
/// line that is no row `label:secret=value` makes the whole text fail. The
/// two marker lines must hold at least one line between them.
pub open spec fn value_options_of(text: Seq<char>) -> Result<Seq<SecretValueView>, ConfigFault> {
    let lines = lines_of(text);
    match scan_lines(lines, values_marker()) {
        Scan::Closed(a, b) => if b > a + 1 {
            match rows_in(lines.subrange(a + 1, b as int)) {
                Ok(opts) => Ok(opts),
                Err(bad) => Err(ConfigFault::BadRow(bad)),
            }
        } else {
            Err(ConfigFault::NoValues)
        },
        Scan::Repeated => Err(ConfigFault::RepeatedValues),
        _ => Err(ConfigFault::NoValues),
    }
}

/// The configuration that `text` describes; the names are read first, so a
/// fault there is the one reported.
pub open spec fn config_of(text: Seq<char>) -> Result<ConfigView, ConfigFault> {
    match secret_names_of(text) {
        Err(e) => Err(e),
        Ok(secrets) => match value_options_of(text) {
            Err(e) => Err(e),
            Ok(values) => Ok(ConfigView { secrets, values }),
        },
    }
}

/// The text of a result of reading secret names.
pub open spec fn names_view(r: Result<Vec<String>, ConfigError>) -> Result<Seq<Seq<char>>, ConfigFault> {
    match r {
        Ok(v) => Ok(v.deep_view()),
        Err(e) => Err(e@),
    }
}

/// The text of a result of reading value options.
pub open spec fn options_view(r: Result<Vec<SecretValue>, ConfigError>) -> Result<Seq<SecretValueView>, ConfigFault> {
    match r {
        Ok(v) => Ok(option_views(v@)),
        Err(e) => Err(e@),
    }
}

/// The text of a result of reading a configuration.
pub open spec fn config_view(r: Result<Config, ConfigError>) -> Result<ConfigView, ConfigFault> {
    match r {
        Ok(c) => Ok(c@),
        Err(e) => Err(e@),
    }
}

/// Reads a whole configuration text.
pub fn parse_config(file: &str) -> (r: Result<Config, ConfigError>)
    ensures
        config_view(r) == config_of(file@),
{
    let secrets = match parse_secret_names(file) {
        Ok(v) => v,
        Err(e) => return Err(e),
    };
    let values = match parse_secret_options(file) {
        Ok(v) => v,
        Err(e) => return Err(e),
    };
    Ok(Config { secrets, values })
}

/// Parsing is deterministic: two results of reading the same text hold the
/// same names and value options in the same order, or the same fault.
pub proof fn lemma_parse_deterministic(
    t1: Seq<char>,
    t2: Seq<char>,
    r1: Result<Config, ConfigError>,
    r2: Result<Config, ConfigError>,
)
    requires
        t1 == t2,
        config_view(r1) == config_of(t1),
        config_view(r2) == config_of(t2),
    ensures
        config_view(r1) == config_view(r2),
        r1 is Ok <==> r2 is Ok,
        r1 matches Ok(c1) ==> r2 matches Ok(c2) && c1.secrets.deep_view() == c2.secrets.deep_view()
            && option_views(c1.values@) == option_views(c2.values@),
{
}

proof fn lemma_scan_stays(lines: Seq<Seq<char>>, marker: Seq<char>, from: int, to: int)
    requires
        0 <= from <= to <= lines.len(),
        forall|i: int| from <= i < to ==> #[trigger] lines[i] != marker,
    ensures
        scan_lines(lines.take(to), marker) == scan_lines(lines.take(from), marker),
    decreases to - from,
{
    if to > from {
        lemma_scan_stays(lines, marker, from, to - 1);
        assert(lines.take(to).drop_last() =~= lines.take(to - 1));
    }
}

/// Lines with no line feed inside and no carriage return at the end, none
/// of which is `marker`.
pub open spec fn plain_lines_without(ls: Seq<Seq<char>>, marker: Seq<char>) -> bool {
    forall|k: int| 0 <= k < ls.len() ==> plain_line(#[trigger] ls[k]) && ls[k] != marker
}

/// A text made of the lines `before`, `marker`, `body`, `marker`, `after`,
/// where `marker` is a plain line and no other line is `marker`: its lines
/// are those, and a scan for `marker` finds exactly `body` as the block.
pub proof fn lemma_single_block(
    before: Seq<Seq<char>>,
    body: Seq<Seq<char>>,
    after: Seq<Seq<char>>,
    marker: Seq<char>,
)
    requires
        plain_line(marker),
        plain_lines_without(before, marker),
        plain_lines_without(body, marker),
        plain_lines_without(after, marker),
        before.len() + body.len() + 1 <= usize::MAX,
    ensures
        ({
            let lines = before + seq![marker] + body + seq![marker] + after;
            let p = before.len() as int;
            &&& lines_of(joined(lines)) == lines
            &&& scan_lines(lines, marker) == Scan::Closed(p as usize, (p + body.len() + 1) as usize)
            &&& lines.subrange(p + 1, p + body.len() + 1) == body
        }),
{
    let lines = before + seq![marker] + body + seq![marker] + after;
    let p = before.len() as int;
    let q = p + body.len() + 1;
    assert forall|k: int| 0 <= k < lines.len() implies plain_line(#[trigger] lines[k]) by {
        if k < p {
            assert(lines[k] == before[k]);
        } else if p < k < q {
            assert(lines[k] == body[k - p - 1]);
        } else if k > q {
            assert(lines[k] == after[k - q - 1]);
        }
    }
    lemma_lines_of_joined(lines);
    assert forall|i: int| 0 <= i < p implies #[trigger] lines[i] != marker by {
        assert(lines[i] == before[i]);
    }
    assert forall|i: int| p + 1 <= i < q implies #[trigger] lines[i] != marker by {
        assert(lines[i] == body[i - p - 1]);
    }
    assert forall|i: int| q + 1 <= i < lines.len() implies #[trigger] lines[i] != marker by {
        assert(lines[i] == after[i - q - 1]);
    }
    assert(lines.take(0) =~= Seq::<Seq<char>>::empty());
    lemma_scan_stays(lines, marker, 0, p);
    assert(lines.take(p + 1).drop_last() =~= lines.take(p));
    lemma_scan_stays(lines, marker, p + 1, q);
    assert(lines.take(q + 1).drop_last() =~= lines.take(q));
    lemma_scan_stays(lines, marker, q + 1, lines.len() as int);
    assert(lines.take(lines.len() as int) =~= lines);
    assert(lines.subrange(p + 1, q) =~= body);
}

/// A text whose only block `--secrets` holds the lines of `body` (at least
/// one), with any other lines before and after it, lists as its secret
/// names the nonempty lines of `body`, in their order: blank lines are
/// skipped and shift nothing.
pub proof fn lemma_secrets_round_trip(
    before: Seq<Seq<char>>,
    body: Seq<Seq<char>>,
    after: Seq<Seq<char>>,
)
    requires
        body.len() >= 1,
        plain_lines_without(before, secrets_marker()),
        plain_lines_without(body, secrets_marker()),
        plain_lines_without(after, secrets_marker()),
        before.len() + body.len() + 1 <= usize::MAX,
    ensures
        secret_names_of(
            joined(before + seq![secrets_marker()] + body + seq![secrets_marker()] + after),
        ) == Ok::<Seq<Seq<char>>, ConfigFault>(names_in(body)),
{
    lemma_single_block(before, body, after, secrets_marker());
}

/// In a text whose only block `--values` holds the lines of `body`, with
/// any other lines before and after it, the first nonempty line of `body`
/// that is no row makes reading the value options fail, naming that line.
pub proof fn lemma_bad_row_fails_file(
    before: Seq<Seq<char>>,
    body: Seq<Seq<char>>,
    after: Seq<Seq<char>>,
    i: int,
)
    requires
        plain_lines_without(before, values_marker()),
        plain_lines_without(body, values_marker()),
        plain_lines_without(after, values_marker()),
        before.len() + body.len() + 1 <= usize::MAX,
        0 <= i < body.len(),
        body[i].len() > 0,
        row_of(body[i]) is None,
        forall|j: int| 0 <= j < i && body[j].len() > 0 ==> (#[trigger] row_of(body[j])) is Some,
    ensures
        value_options_of(
            joined(before + seq![values_marker()] + body + seq![values_marker()] + after),
        ) == Err::<Seq<SecretValueView>, ConfigFault>(ConfigFault::BadRow(body[i])),
{
    lemma_single_block(before, body, after, values_marker());
    lemma_bad_row_reported(body, i);
}

/// The block `--secrets`, `a`, `b`, `--secrets` gives the names `a` and `b`,
/// in that order.
pub proof fn lemma_two_secrets(a: Seq<char>, b: Seq<char>)
    requires
        plain_line(a),
        plain_line(b),
        a.len() > 0,
        b.len() > 0,
        a != secrets_marker(),
        b != secrets_marker(),
    ensures
        secret_names_of(joined(seq![secrets_marker(), a, b, secrets_marker()])) == Ok::<
            Seq<Seq<char>>,
            ConfigFault,
        >(seq![a, b]),
{
    let body = seq![a, b];
    assert(seq![secrets_marker()] + body + seq![secrets_marker()] =~= seq![
        secrets_marker(),
        a,
        b,
        secrets_marker(),
    ]);
    assert(Seq::<Seq<char>>::empty() + seq![secrets_marker()] + body + seq![secrets_marker()]
        + Seq::<Seq<char>>::empty() =~= seq![secrets_marker(), a, b, secrets_marker()]);
    lemma_secrets_round_trip(Seq::empty(), body, Seq::empty());
    reveal_with_fuel(Seq::filter, 3);
    assert(body.drop_last() =~= seq![a]);
    assert(body.drop_last().drop_last() =~= Seq::<Seq<char>>::empty());
    assert(names_in(body) =~= seq![a, b]);
}

proof fn lemma_rows_ok_before(block: Seq<Seq<char>>, i: int)
    requires
        0 <= i <= block.len(),
        forall|j: int| 0 <= j < i && block[j].len() > 0 ==> (#[trigger] row_of(block[j])) is Some,
    ensures
        rows_in(block.take(i)) is Ok,
    decreases i,
{
    if i > 0 {
        lemma_rows_ok_before(block, i - 1);
        assert(block.take(i).drop_last() =~= block.take(i - 1));
    } else {
        assert(block.take(0) =~= Seq::<Seq<char>>::empty());
    }
}

/// In a values block, the first nonempty line that is no row is the one that
/// the failure names.
pub proof fn lemma_bad_row_reported(block: Seq<Seq<char>>, i: int)
    requires
        0 <= i < block.len(),
        block[i].len() > 0,
        row_of(block[i]) is None,
        forall|j: int| 0 <= j < i && block[j].len() > 0 ==> (#[trigger] row_of(block[j])) is Some,
    ensures
        rows_in(block) == Err::<Seq<SecretValueView>, Seq<char>>(block[i]),
{
    lemma_rows_ok_before(block, i);
    assert(block.take(i + 1).drop_last() =~= block.take(i));
    lemma_rows_error_kept(block, i + 1, block.len() as int);
    assert(block.take(block.len() as int) =~= block);
}

proof fn lemma_scan_without_marker(lines: Seq<Seq<char>>, marker: Seq<char>)
    requires
        forall|k: int| 0 <= k < lines.len() ==> #[trigger] lines[k] != marker,
    ensures
        scan_lines(lines, marker) == Scan::Seeking,
    decreases lines.len(),
{
    if lines.len() > 0 {
        lemma_scan_without_marker(lines.drop_last(), marker);
    }
}

/// A text with no line `--secrets` fails with the error for a missing
/// secrets block.
pub proof fn lemma_missing_secrets_block(text: Seq<char>)
    requires
        forall|k: int| 0 <= k < lines_of(text).len() ==> #[trigger] lines_of(text)[k] != secrets_marker(),
    ensures
        secret_names_of(text) == Err::<Seq<Seq<char>>, ConfigFault>(ConfigFault::NoSecrets),
{
    lemma_scan_without_marker(lines_of(text), secrets_marker());
}

} // verus!
