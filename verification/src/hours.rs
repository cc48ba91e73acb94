//! Reading the summary that an hours estimate prints.
//!
//! The estimate prints lines such as `total commits = 12, ...`. The lines
//! that begin with a known label are read; every other line is passed over.

use vstd::prelude::*;
use crate::config::{Globals, RepoOptions};
use crate::text::{chars_of, text_of};

verus! {

/// What an hours estimate is asked to do.
#[derive(Clone, Debug)]
pub struct Options {
    pub repo: RepoOptions,
    /// Leave out authors that are bots.
    pub no_bots: bool,
    /// Count the files added, removed and modified.
    pub file_stats: bool,
    /// Count the lines added and removed.
    pub line_stats: bool,
    /// Show names and email addresses.
    pub show_pii: bool,
    /// Keep identities apart that share a name or an email address.
    pub omit_unify_identities: bool,
    /// The number of threads to use.
    pub threads: Option<usize>,
}

/// An hours estimate.
#[derive(Clone, Debug)]
pub struct Analyzer {
    pub opts: Options,
    pub globals: Globals,
}

impl Analyzer {
    /// An estimate with the given options.
    pub fn new(opts: Options, globals: Globals) -> (analyzer: Analyzer)
        ensures
            analyzer.opts == opts,
            analyzer.globals == globals,
    {
        Analyzer { opts, globals }
    }

    /// The revision that the estimate starts from: `until` where it is
    /// given, else the revision of the options.
    pub fn revision(&self) -> (spec: &String)
        ensures
            self.globals.until is Some ==> *spec == self.globals.until->0,
            self.globals.until is None ==> *spec == self.opts.repo.rev_spec,
    {
        crate::walk::start_revision(&self.opts.repo.rev_spec, &self.globals.until)
    }
}

/// What an hours estimate found.
pub struct Summary {
    /// The hours worked, as the estimate wrote the number.
    pub total_hours: String,
    /// The working days of eight hours, as the estimate wrote the number.
    pub total_8h_days: String,
    pub total_commits: u32,
    pub total_authors: u32,
    /// Files added, removed, modified and remaining.
    pub total_files: Option<[u32; 4]>,
    /// Lines added, removed and remaining.
    pub total_lines: Option<[u32; 3]>,
}

/// What is read of a summary, as values.
pub struct SummaryView {
    pub total_hours: Seq<char>,
    pub total_8h_days: Seq<char>,
    pub total_commits: u32,
    pub total_authors: u32,
    pub total_files: Option<Seq<u32>>,
    pub total_lines: Option<Seq<u32>>,
}

impl View for Summary {
    type V = SummaryView;

    open spec fn view(&self) -> SummaryView {
        SummaryView {
            total_hours: self.total_hours@,
            total_8h_days: self.total_8h_days@,
            total_commits: self.total_commits,
            total_authors: self.total_authors,
            total_files: match self.total_files {
                Some(a) => Some(a@),
                None => None,
            },
            total_lines: match self.total_lines {
                Some(a) => Some(a@),
                None => None,
            },
        }
    }
}

/// Whether a character is white space, as Unicode defines it.
pub open spec fn is_space(c: char) -> bool {
    let u = c as u32;
    ||| 0x09 <= u <= 0x0d
    ||| u == 0x20
    ||| u == 0x85
    ||| u == 0xa0
    ||| u == 0x1680
    ||| 0x2000 <= u <= 0x200a
    ||| u == 0x2028
    ||| u == 0x2029
    ||| u == 0x202f
    ||| u == 0x205f
    ||| u == 0x3000
}

/// Tells whether a character is white space.
pub fn is_whitespace(c: char) -> (b: bool)
    ensures
        b == is_space(c),
{
    let u = c as u32;
    (0x09 <= u && u <= 0x0d) || u == 0x20 || u == 0x85 || u == 0xa0 || u == 0x1680 || (0x2000 <= u && u
        <= 0x200a) || u == 0x2028 || u == 0x2029 || u == 0x202f || u == 0x205f || u == 0x3000
}

/// The first position at or after `i` that holds no white space; the
/// length of the text if there is none.
pub open spec fn skip_spaces(s: Seq<char>, i: int) -> int
    decreases s.len() - i,
{
    if i < 0 || i >= s.len() {
        s.len() as int
    } else if is_space(s[i]) {
        skip_spaces(s, i + 1)
    } else {
        i
    }
}

/// The first position at or after `i` that holds white space; the length
/// of the text if there is none.
pub open spec fn word_end(s: Seq<char>, i: int) -> int
    decreases s.len() - i,
{
    if i < 0 || i >= s.len() {
        s.len() as int
    } else if is_space(s[i]) {
        i
    } else {
        word_end(s, i + 1)
    }
}

/// The end of the first `n` characters once trailing white space is cut.
pub open spec fn trim_end(s: Seq<char>, n: int) -> int
    decreases n,
{
    if n <= 0 {
        0
    } else if is_space(s[n - 1]) {
        trim_end(s, n - 1)
    } else {
        n
    }
}

/// The first run of characters that are no white space, if there is one.
pub open spec fn first_word(s: Seq<char>) -> Option<Seq<char>> {
    let a = skip_spaces(s, 0);
    if a >= s.len() {
        None
    } else {
        Some(s.subrange(a, word_end(s, a)))
    }
}

/// The text without the white space at its ends.
pub open spec fn trimmed(s: Seq<char>) -> Seq<char> {
    let a = skip_spaces(s, 0);
    if a >= s.len() {
        Seq::empty()
    } else {
        s.subrange(a, trim_end(s, s.len() as int))
    }
}

/// Whether a character is one of the digits 0 to 9.
pub open spec fn is_digit(c: char) -> bool {
    '0' <= c <= '9'
}

/// The number that the first `n` characters of `s` write in decimal.
pub open spec fn decimal(s: Seq<char>, n: int) -> int
    decreases n,
{
    if n <= 0 {
        0
    } else {
        decimal(s, n - 1) * 10 + (s[n - 1] as u32 - '0' as u32)
    }
}

/// The digits of a number: the text itself, without a leading plus sign.
pub open spec fn digits_of(s: Seq<char>) -> Seq<char> {
    if s.len() > 0 && s[0] == '+' {
        s.skip(1)
    } else {
        s
    }
}

/// The number that a text writes: one or more decimal digits, which a plus
/// sign may precede, of a value that 32 bits hold. No number otherwise.
pub open spec fn number(s: Seq<char>) -> Option<u32> {
    let d = digits_of(s);
    if d.len() > 0 && (forall|i: int| 0 <= i < d.len() ==> is_digit(#[trigger] d[i])) && decimal(
        d,
        d.len() as int,
    ) <= u32::MAX {
        Some(decimal(d, d.len() as int) as u32)
    } else {
        None
    }
}

/// The first position at or after `i` that holds `sep`; the length of the
/// text if there is none.
pub open spec fn next_sep(s: Seq<char>, i: int, sep: char) -> int
    decreases s.len() - i,
{
    if i < 0 || i >= s.len() {
        s.len() as int
    } else if s[i] == sep {
        i
    } else {
        next_sep(s, i + 1, sep)
    }
}

/// The number at the head of a part of a list, if the part has one: the
/// first word of the part, read as a number.
pub open spec fn part_number(part: Seq<char>) -> Option<u32> {
    match first_word(part) {
        Some(w) => number(w),
        None => None,
    }
}

/// The numbers of a list whose parts are separated by slashes, from
/// position `start` on: of each part the number at its head, parts without
/// one left out.
pub open spec fn numbers_from(s: Seq<char>, start: int) -> Seq<u32>
    decreases s.len() - start,
{
    if start < 0 || start > s.len() {
        Seq::empty()
    } else {
        let end = next_sep(s, start, '/');
        let here = match part_number(s.subrange(start, end)) {
            Some(n) => seq![n],
            None => Seq::empty(),
        };
        if end >= s.len() || end < start {
            here
        } else {
            here + numbers_from(s, end + 1)
        }
    }
}

/// The numbers of a list whose parts are separated by slashes.
pub open spec fn numbers(s: Seq<char>) -> Seq<u32> {
    numbers_from(s, 0)
}

proof fn lemma_decimal_grows(s: Seq<char>, k: int, n: int)
    requires
        0 <= k <= n <= s.len(),
        forall|i: int| 0 <= i < n ==> is_digit(#[trigger] s[i]),
    ensures
        0 <= decimal(s, k) <= decimal(s, n),
    decreases n - k,
{
    lemma_decimal_nonnegative(s, k);
    if k < n {
        lemma_decimal_grows(s, k + 1, n);
    }
}

proof fn lemma_decimal_nonnegative(s: Seq<char>, k: int)
    requires
        0 <= k <= s.len(),
        forall|i: int| 0 <= i < k ==> is_digit(#[trigger] s[i]),
    ensures
        0 <= decimal(s, k),
    decreases k,
{
    if k > 0 {
        lemma_decimal_nonnegative(s, k - 1);
    }
}

/// Reads a number from the characters `from` up to `to`.
fn read_number(chars: &Vec<char>, from: usize, to: usize) -> (n: Option<u32>)
    requires
        from <= to <= chars@.len(),
    ensures
        n == number(chars@.subrange(from as int, to as int)),
{
    let ghost s = chars@.subrange(from as int, to as int);
    let mut i = from;
    if i < to && chars[i] == '+' {
        i = i + 1;
    }
    let ghost d = digits_of(s);
    let start = i;
    assert(d =~= chars@.subrange(start as int, to as int));
    if start == to {
        return None;
    }
    let mut value: u32 = 0;
    while i < to
        invariant
            start <= i <= to <= chars@.len(),
            start < to,
            s == chars@.subrange(from as int, to as int),
            d == digits_of(s),
            d == chars@.subrange(start as int, to as int),
            forall|j: int| 0 <= j < i - start ==> is_digit(#[trigger] d[j]),
            value == decimal(d, i - start),
        decreases to - i,
    {
        let c = chars[i];
        assert(d[i - start] == c);
        if c < '0' || c > '9' {
            assert(!is_digit(d[i - start]));
            return None;
        }
        let digit = c as u32 - '0' as u32;
        if value > (u32::MAX - digit) / 10 {
            proof {
                assert(decimal(d, i - start + 1) > u32::MAX);
                if forall|j: int| 0 <= j < d.len() ==> is_digit(#[trigger] d[j]) {
                    lemma_decimal_grows(d, i - start + 1, d.len() as int);
                }
            }
            return None;
        }
        value = value * 10 + digit;
        i = i + 1;
    }
    Some(value)
}

/// Finds the first word among the characters `from` up to `to`: its start
/// and its end, if there is one.
fn find_word(chars: &Vec<char>, from: usize, to: usize) -> (word: Option<(usize, usize)>)
    requires
        from <= to <= chars@.len(),
    ensures
        word matches Some(w) ==> from <= w.0 < w.1 <= to && first_word(
            chars@.subrange(from as int, to as int),
        ) == Some(chars@.subrange(w.0 as int, w.1 as int)),
        word is None ==> first_word(chars@.subrange(from as int, to as int)) is None,
{
    let ghost s = chars@.subrange(from as int, to as int);
    let mut a = from;
    while a < to && is_whitespace(chars[a])
        invariant
            from <= a <= to <= chars@.len(),
            s == chars@.subrange(from as int, to as int),
            skip_spaces(s, 0) == skip_spaces(s, a - from),
        decreases to - a,
    {
        assert(s[a - from] == chars@[a as int]);
        a = a + 1;
    }
    if a == to {
        return None;
    }
    assert(s[a - from] == chars@[a as int]);
    let mut b = a;
    while b < to && !is_whitespace(chars[b])
        invariant
            from <= a <= b <= to <= chars@.len(),
            s == chars@.subrange(from as int, to as int),
            word_end(s, a - from) == word_end(s, b - from),
        decreases to - b,
    {
        assert(s[b - from] == chars@[b as int]);
        b = b + 1;
    }
    proof {
        if b < to {
            assert(s[b - from] == chars@[b as int]);
        }
        assert(s.subrange(a - from, b - from) =~= chars@.subrange(a as int, b as int));
    }
    Some((a, b))
}

/// Cuts the white space from both ends of the characters `from` up to `to`.
fn trim(chars: &Vec<char>, from: usize, to: usize) -> (cut: (usize, usize))
    requires
        from <= to <= chars@.len(),
    ensures
        from <= cut.0 <= cut.1 <= to,
        chars@.subrange(cut.0 as int, cut.1 as int) == trimmed(chars@.subrange(from as int, to as int)),
{
    let ghost s = chars@.subrange(from as int, to as int);
    let mut a = from;
    while a < to && is_whitespace(chars[a])
        invariant
            from <= a <= to <= chars@.len(),
            s == chars@.subrange(from as int, to as int),
            skip_spaces(s, 0) == skip_spaces(s, a - from),
        decreases to - a,
    {
        assert(s[a - from] == chars@[a as int]);
        a = a + 1;
    }
    if a == to {
        assert(chars@.subrange(a as int, a as int) =~= Seq::<char>::empty());
        return (a, a);
    }
    assert(s[a - from] == chars@[a as int]);
    let mut b = to;
    while b > a && is_whitespace(chars[b - 1])
        invariant
            from <= a < b <= to <= chars@.len(),
            !is_space(chars@[a as int]),
            s == chars@.subrange(from as int, to as int),
            trim_end(s, s.len() as int) == trim_end(s, b - from),
        decreases b,
    {
        assert(s[b - 1 - from] == chars@[b - 1]);
        b = b - 1;
    }
    proof {
        assert(s[b - 1 - from] == chars@[b - 1]);
        assert(s.subrange(a - from, b - from) =~= chars@.subrange(a as int, b as int));
    }
    (a, b)
}

/// Reads the numbers of a list whose parts are separated by slashes.
fn read_numbers(chars: &Vec<char>, from: usize, to: usize) -> (out: Vec<u32>)
    requires
        from <= to <= chars@.len(),
    ensures
        out@ == numbers(chars@.subrange(from as int, to as int)),
{
    let ghost s = chars@.subrange(from as int, to as int);
    let mut out: Vec<u32> = Vec::new();
    let mut start = from;
    loop
        invariant_except_break
            from <= start <= to <= chars@.len(),
            s == chars@.subrange(from as int, to as int),
            numbers(s) == out@ + numbers_from(s, start - from),
        ensures
            out@ == numbers(s),
        decreases to - start,
    {
        let mut end = start;
        while end < to && chars[end] != '/'
            invariant
                from <= start <= end <= to <= chars@.len(),
                s == chars@.subrange(from as int, to as int),
                next_sep(s, start - from, '/') == next_sep(s, end - from, '/'),
            decreases to - end,
        {
            assert(s[end - from] == chars@[end as int]);
            end = end + 1;
        }
        proof {
            if end < to {
                assert(s[end - from] == chars@[end as int]);
            }
            assert(next_sep(s, start - from, '/') == end - from);
            assert(s.subrange(start - from, end - from) =~= chars@.subrange(start as int, end as int));
        }
        let ghost before = out@;
        match find_word(chars, start, end) {
            Some((a, b)) => match read_number(chars, a, b) {
                Some(n) => {
                    out.push(n);
                },
                None => {},
            },
            None => {},
        }
        proof {
            let here = match part_number(s.subrange(start - from, end - from)) {
                Some(n) => seq![n],
                None => Seq::<u32>::empty(),
            };
            assert(out@ =~= before + here);
            if end < to {
                assert(numbers_from(s, start - from) == here + numbers_from(s, end - from + 1));
                assert(before + (here + numbers_from(s, end - from + 1)) =~= (before + here)
                    + numbers_from(s, end - from + 1));
            } else {
                assert(numbers_from(s, start - from) == here);
                assert(before + here =~= numbers(s));
            }
        }
        if end >= to {
            break ;
        }
        start = end + 1;
    }
    out
}

/// Reads exactly `N` numbers from the characters `from` up to `to`.
fn numbers_exactly<const N: usize>(chars: &Vec<char>, from: usize, to: usize) -> (out: Option<[u32; N]>)
    requires
        from <= to <= chars@.len(),
    ensures
        out is Some <==> numbers(chars@.subrange(from as int, to as int)).len() == N,
        out matches Some(a) ==> a@ == numbers(chars@.subrange(from as int, to as int)),
{
    let parts = read_numbers(chars, from, to);
    if parts.len() == N {
        let mut arr: [u32; N] = [0u32;N];
        let mut i: usize = 0;
        while i < N
            invariant
                i <= N,
                parts@.len() == N,
                forall|j: int| 0 <= j < i ==> arr@[j] == parts@[j],
            decreases N - i,
        {
            arr[i] = parts[i];
            i = i + 1;
        }
        assert(arr@ =~= parts@);
        Some(arr)
    } else {
        None
    }
}

/// Reads exactly `N` numbers from a list whose parts are separated by
/// slashes; nothing if the list holds another number of numbers.
pub fn parse_numbers<const N: usize>(v: &str) -> (out: Option<[u32; N]>)
    ensures
        out is Some <==> numbers(v@).len() == N,
        out matches Some(a) ==> a@ == numbers(v@),
{
    let chars = chars_of(v);
    assert(chars@.subrange(0, chars@.len() as int) =~= v@);
    numbers_exactly(&chars, 0, chars.len())
}

/// The label of the line with the hours worked.
pub open spec fn hours_label() -> Seq<char> {
    "total hours: "@
}

/// The label of the line with the working days.
pub open spec fn days_label() -> Seq<char> {
    "total 8h days: "@
}

/// The label of the line with the commits.
pub open spec fn commits_label() -> Seq<char> {
    "total commits = "@
}

/// The label of the line with the authors.
pub open spec fn authors_label() -> Seq<char> {
    "total authors: "@
}

/// The label of the line with the files.
pub open spec fn files_label() -> Seq<char> {
    "total files added/removed/modified/remaining: "@
}

/// The label of the line with the lines.
pub open spec fn lines_label() -> Seq<char> {
    "total lines added/removed/remaining: "@
}

/// Whether `line` begins with `label`.
pub open spec fn begins_with(line: Seq<char>, label: Seq<char>) -> bool {
    label.len() <= line.len() && line.subrange(0, label.len() as int) == label
}

/// The numbers of a list, if there are exactly `n`.
pub open spec fn numbers_if(list: Seq<char>, n: nat) -> Option<Seq<u32>> {
    if numbers(list).len() == n {
        Some(numbers(list))
    } else {
        None
    }
}

/// A number, or 0 where there is none.
pub open spec fn or_zero(n: Option<u32>) -> u32 {
    match n {
        Some(v) => v,
        None => 0,
    }
}

/// The summary after a line was read. A line sets the value whose label it
/// begins with, the first label in the order below that fits; a line with
/// no known label changes nothing.
pub open spec fn after_line(acc: SummaryView, line: Seq<char>) -> SummaryView {
    if begins_with(line, hours_label()) {
        SummaryView { total_hours: trimmed(line.skip(hours_label().len() as int)), ..acc }
    } else if begins_with(line, days_label()) {
        SummaryView { total_8h_days: trimmed(line.skip(days_label().len() as int)), ..acc }
    } else if begins_with(line, commits_label()) {
        SummaryView { total_commits: or_zero(part_number(line.skip(commits_label().len() as int))), ..acc }
    } else if begins_with(line, authors_label()) {
        SummaryView { total_authors: or_zero(number(trimmed(line.skip(authors_label().len() as int)))), ..acc }
    } else if begins_with(line, files_label()) {
        SummaryView { total_files: numbers_if(line.skip(files_label().len() as int), 4), ..acc }
    } else if begins_with(line, lines_label()) {
        SummaryView { total_lines: numbers_if(line.skip(lines_label().len() as int), 3), ..acc }
    } else {
        acc
    }
}

/// The line that begins at `start` and ends before `end`, where the next
/// line feed or the end of the text is: without the carriage return that
/// stands before the line feed, if one does.
pub open spec fn line_at(s: Seq<char>, start: int, end: int) -> Seq<char> {
    if end < s.len() && start < end && s[end - 1] == '\r' {
        s.subrange(start, end - 1)
    } else {
        s.subrange(start, end)
    }
}

/// The summary after the lines of `s` from position `start` on were read.
pub open spec fn after_lines(acc: SummaryView, s: Seq<char>, start: int) -> SummaryView
    decreases s.len() - start,
{
    if start < 0 || start >= s.len() {
        acc
    } else {
        let end = next_sep(s, start, '\n');
        if end < start || end >= s.len() {
            after_line(acc, line_at(s, start, end))
        } else {
            after_lines(after_line(acc, line_at(s, start, end)), s, end + 1)
        }
    }
}

/// The summary before anything is read.
pub open spec fn blank() -> SummaryView {
    SummaryView {
        total_hours: Seq::empty(),
        total_8h_days: Seq::empty(),
        total_commits: 0,
        total_authors: 0,
        total_files: None,
        total_lines: None,
    }
}

/// Tells whether the characters `from` up to `to` begin with `label`.
fn starts_with(chars: &Vec<char>, from: usize, to: usize, label: &Vec<char>) -> (b: bool)
    requires
        from <= to <= chars@.len(),
    ensures
        b == begins_with(chars@.subrange(from as int, to as int), label@),
{
    let ghost line = chars@.subrange(from as int, to as int);
    if label.len() > to - from {
        return false;
    }
    let mut i: usize = 0;
    while i < label.len()
        invariant
            from <= to <= chars@.len(),
            label@.len() <= to - from,
            i <= label@.len(),
            line == chars@.subrange(from as int, to as int),
            forall|j: int| 0 <= j < i ==> line[j] == label@[j],
        decreases label@.len() - i,
    {
        if chars[from + i] != label[i] {
            assert(line.subrange(0, label@.len() as int)[i as int] != label@[i as int]);
            return false;
        }
        i = i + 1;
    }
    assert(line.subrange(0, label@.len() as int) =~= label@);
    true
}

impl Summary {
    /// The summary before anything is read.
    pub fn new() -> (summary: Summary)
        ensures
            summary@ == blank(),
    {
        Summary {
            total_hours: String::new(),
            total_8h_days: String::new(),
            total_commits: 0,
            total_authors: 0,
            total_files: None,
            total_lines: None,
        }
    }
}

/// Reads one line, the characters `from` up to `to`, into the summary.
fn parse_line(chars: &Vec<char>, from: usize, to: usize, summary: &mut Summary)
    requires
        from <= to <= chars@.len(),
    ensures
        final(summary)@ == after_line(old(summary)@, chars@.subrange(from as int, to as int)),
{
    let ghost line = chars@.subrange(from as int, to as int);
    let hours = chars_of("total hours: ");
    let days = chars_of("total 8h days: ");
    let commits = chars_of("total commits = ");
    let authors = chars_of("total authors: ");
    let files = chars_of("total files added/removed/modified/remaining: ");
    let lines = chars_of("total lines added/removed/remaining: ");
    if starts_with(chars, from, to, &hours) {
        let rest = from + hours.len();
        assert(line.skip(hours@.len() as int) =~= chars@.subrange(rest as int, to as int));
        let (a, b) = trim(chars, rest, to);
        summary.total_hours = text_of(chars, a, b);
    } else if starts_with(chars, from, to, &days) {
        let rest = from + days.len();
        assert(line.skip(days@.len() as int) =~= chars@.subrange(rest as int, to as int));
        let (a, b) = trim(chars, rest, to);
        summary.total_8h_days = text_of(chars, a, b);
    } else if starts_with(chars, from, to, &commits) {
        let rest = from + commits.len();
        assert(line.skip(commits@.len() as int) =~= chars@.subrange(rest as int, to as int));
        let n = match find_word(chars, rest, to) {
            Some((a, b)) => read_number(chars, a, b),
            None => None,
        };
        summary.total_commits = match n {
            Some(v) => v,
            None => 0,
        };
    } else if starts_with(chars, from, to, &authors) {
        let rest = from + authors.len();
        assert(line.skip(authors@.len() as int) =~= chars@.subrange(rest as int, to as int));
        let (a, b) = trim(chars, rest, to);
        summary.total_authors = match read_number(chars, a, b) {
            Some(v) => v,
            None => 0,
        };
    } else if starts_with(chars, from, to, &files) {
        let rest = from + files.len();
        assert(line.skip(files@.len() as int) =~= chars@.subrange(rest as int, to as int));
        summary.total_files = numbers_exactly::<4>(chars, rest, to);
    } else if starts_with(chars, from, to, &lines) {
        let rest = from + lines.len();
        assert(line.skip(lines@.len() as int) =~= chars@.subrange(rest as int, to as int));
        summary.total_lines = numbers_exactly::<3>(chars, rest, to);
    }
}

/// Reads the summary that an hours estimate printed, line by line.
pub fn parse_summary(out: &str) -> (summary: Summary)
    ensures
        summary@ == after_lines(blank(), out@, 0),
{
    let chars = chars_of(out);
    let ghost s = chars@;
    let mut summary = Summary::new();
    let mut start: usize = 0;
    while start < chars.len()
        invariant
            start <= chars@.len(),
            s == chars@,
            after_lines(blank(), s, 0) == after_lines(summary@, s, start as int),
        decreases chars@.len() - start,
    {
        let mut end = start;
        while end < chars.len() && chars[end] != '\n'
            invariant
                start <= end <= chars@.len(),
                s == chars@,
                next_sep(s, start as int, '\n') == next_sep(s, end as int, '\n'),
            decreases chars@.len() - end,
        {
            end = end + 1;
        }
        let stop = if end < chars.len() && start < end && chars[end - 1] == '\r' {
            end - 1
        } else {
            end
        };
        assert(chars@.subrange(start as int, stop as int) == line_at(s, start as int, end as int));
        parse_line(&chars, start, stop, &mut summary);
        if end < chars.len() {
            start = end + 1;
        } else {
            start = end;
        }
    }
    summary
}

} // verus!
