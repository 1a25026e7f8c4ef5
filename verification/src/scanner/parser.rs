//! The `.env` parser: one entry per logical line, with multi-line quoted
//! values, duplicate detection, format checks and sensitivity heuristics.
use vstd::prelude::*;

use crate::text::{
    chars_eq, chars_of, contains, contains_char, contains_chars, copy_range, find_char, index_of,
    lemma_index_of, lemma_trim_idempotent, lines, split_lines, string_of, to_uppercase, trim, trim_chars, trim_end,
    trim_end_chars, unicode_uppercase,
};

verus! {

broadcast use vstd::string::group_string_axioms;

/// One parsed line (or multi-line value) of a `.env` file.
pub struct EnvEntry {
    pub key: String,
    pub value: String,
    pub line_number: usize,
    pub is_comment: bool,
    pub is_empty: bool,
    pub is_duplicate: bool,
    pub has_format_error: bool,
    pub is_sensitive: bool,
    pub expands_variables: bool,
}

/// The mathematical content of an [`EnvEntry`].
pub struct EnvEntryView {
    pub key: Seq<char>,
    pub value: Seq<char>,
    pub line_number: nat,
    pub is_comment: bool,
    pub is_empty: bool,
    pub is_duplicate: bool,
    pub has_format_error: bool,
    pub is_sensitive: bool,
    pub expands_variables: bool,
}

impl View for EnvEntry {
    type V = EnvEntryView;

    open spec fn view(&self) -> EnvEntryView {
        EnvEntryView {
            key: self.key@,
            value: self.value@,
            line_number: self.line_number as nat,
            is_comment: self.is_comment,
            is_empty: self.is_empty,
            is_duplicate: self.is_duplicate,
            has_format_error: self.has_format_error,
            is_sensitive: self.is_sensitive,
            expands_variables: self.expands_variables,
        }
    }
}

/// The views of a sequence of entries.
pub open spec fn entries_view(v: Seq<EnvEntry>) -> Seq<EnvEntryView> {
    v.map_values(|e: EnvEntry| e@)
}

// ---------------------------------------------------------------------------
// Specification
// ---------------------------------------------------------------------------

/// Key fragments whose presence (after upper-casing) marks a key as sensitive.
pub open spec fn sensitive_patterns() -> Seq<Seq<char>> {
    seq![
        "SECRET"@,
        "TOKEN"@,
        "PASSWORD"@,
        "PASSWD"@,
        "KEY"@,
        "PRIVATE"@,
        "CREDENTIAL"@,
        "AUTH"@,
        "API_KEY"@,
        "APIKEY"@,
        "ACCESS"@,
    ]
}

/// The upper-cased key contains one of the sensitive patterns.
pub open spec fn spec_detect_sensitive(key: Seq<char>) -> bool {
    exists|i: int|
        0 <= i < sensitive_patterns().len() && #[trigger] contains(
            unicode_uppercase(key),
            sensitive_patterns()[i],
        )
}

/// The value refers to another variable with `${`.
pub open spec fn spec_detect_variable_expansion(value: Seq<char>) -> bool {
    contains(value, seq!['$', '{'])
}

pub open spec fn is_quote(c: char) -> bool {
    c == '"' || c == '\''
}

/// A value that opens a quote and does not close it on the same line.
pub open spec fn spec_starts_with_unclosed_quote(val: Seq<char>) -> bool {
    &&& val.len() > 0
    &&& is_quote(val[0])
    &&& !(val.len() >= 2 && val.last() == val[0])
}

/// A value wrapped in a matching pair of quotes loses them.
pub open spec fn spec_strip_quotes(val: Seq<char>) -> Seq<char> {
    if val.len() >= 2 && is_quote(val[0]) && val.last() == val[0] {
        val.subrange(1, val.len() - 1)
    } else {
        val
    }
}

/// Continues a multi-line value at line `j`: lines are appended, separated by
/// `\n`, up to the first line whose right-trimmed text ends with `quote`
/// (appended without that quote). Yields the value and the index just past
/// the last line consumed.
pub open spec fn multiline_scan(lines: Seq<Seq<char>>, j: int, quote: char, buf: Seq<char>) -> (
    Seq<char>,
    int,
)
    decreases lines.len() - j,
{
    if j < 0 || j >= lines.len() {
        (buf, j)
    } else {
        let t = trim_end(lines[j]);
        if t.len() > 0 && t.last() == quote {
            (buf + seq!['\n'] + t.drop_last(), j + 1)
        } else {
            multiline_scan(lines, j + 1, quote, buf + seq!['\n'] + lines[j])
        }
    }
}

/// The multi-line value opened on line `start` by `first` (whose first
/// character is the opening quote), and the number of lines it spans.
pub open spec fn spec_collect_multiline(lines: Seq<Seq<char>>, start: int, first: Seq<char>) -> (
    Seq<char>,
    int,
) {
    let (buf, end) = multiline_scan(lines, start + 1, first[0], first.drop_first());
    (buf, end - start)
}

pub open spec fn spec_empty_entry(line: nat) -> EnvEntryView {
    EnvEntryView {
        key: seq![],
        value: seq![],
        line_number: line,
        is_comment: false,
        is_empty: true,
        is_duplicate: false,
        has_format_error: false,
        is_sensitive: false,
        expands_variables: false,
    }
}

pub open spec fn spec_comment_entry(text: Seq<char>, line: nat) -> EnvEntryView {
    EnvEntryView {
        key: text,
        value: seq![],
        line_number: line,
        is_comment: true,
        is_empty: false,
        is_duplicate: false,
        has_format_error: false,
        is_sensitive: false,
        expands_variables: false,
    }
}

/// A line that is neither blank, a comment, nor an assignment.
pub open spec fn spec_malformed_entry(text: Seq<char>, line: nat) -> EnvEntryView {
    EnvEntryView {
        key: text,
        value: seq![],
        line_number: line,
        is_comment: false,
        is_empty: false,
        is_duplicate: false,
        has_format_error: true,
        is_sensitive: false,
        expands_variables: false,
    }
}

/// The key of an assignment line (text before the first `=`, trimmed).
pub open spec fn assignment_key(line: Seq<char>) -> Seq<char> {
    trim(line.subrange(0, index_of(line, '=')))
}

/// The raw value of an assignment line (text after the first `=`, trimmed).
pub open spec fn assignment_raw_value(line: Seq<char>) -> Seq<char> {
    trim(line.subrange(index_of(line, '=') + 1, line.len() as int))
}

/// The value of the assignment that starts on line `idx`, with the number of
/// lines it spans.
pub open spec fn assignment_value(lines: Seq<Seq<char>>, idx: int) -> (Seq<char>, int) {
    let raw = assignment_raw_value(trim(lines[idx]));
    if spec_starts_with_unclosed_quote(raw) {
        spec_collect_multiline(lines, idx, raw)
    } else {
        (spec_strip_quotes(raw), 1)
    }
}

/// The key has a format error: it is empty or holds a space.
pub open spec fn spec_key_format_error(key: Seq<char>) -> bool {
    key.len() == 0 || contains(key, seq![' '])
}

/// The assignment entry that starts on line `idx`, given whether its key was
/// already assigned earlier in the file.
pub open spec fn spec_assignment_entry(lines: Seq<Seq<char>>, idx: int, duplicate: bool) -> EnvEntryView {
    let key = assignment_key(trim(lines[idx]));
    let value = assignment_value(lines, idx).0;
    EnvEntryView {
        key: key,
        value: value,
        line_number: (idx + 1) as nat,
        is_comment: false,
        is_empty: false,
        is_duplicate: duplicate,
        has_format_error: spec_key_format_error(key),
        is_sensitive: spec_detect_sensitive(key),
        expands_variables: spec_detect_variable_expansion(value),
    }
}

/// How the (trimmed) line at `idx` is classified.
pub open spec fn is_blank_line(lines: Seq<Seq<char>>, idx: int) -> bool {
    trim(lines[idx]).len() == 0
}

pub open spec fn is_comment_line(lines: Seq<Seq<char>>, idx: int) -> bool {
    !is_blank_line(lines, idx) && trim(lines[idx])[0] == '#'
}

pub open spec fn is_assignment_line(lines: Seq<Seq<char>>, idx: int) -> bool {
    &&& !is_blank_line(lines, idx)
    &&& !is_comment_line(lines, idx)
    &&& index_of(trim(lines[idx]), '=') < trim(lines[idx]).len()
}

/// Number of lines consumed by the entry starting at `idx`.
pub open spec fn lines_consumed(lines: Seq<Seq<char>>, idx: int) -> int {
    if is_assignment_line(lines, idx) {
        assignment_value(lines, idx).1
    } else {
        1
    }
}

pub proof fn lemma_multiline_scan_end(lines: Seq<Seq<char>>, j: int, quote: char, buf: Seq<char>)
    requires
        0 <= j <= lines.len(),
    ensures
        j <= multiline_scan(lines, j, quote, buf).1 <= lines.len(),
        j < lines.len() ==> j < multiline_scan(lines, j, quote, buf).1,
    decreases lines.len() - j,
{
    if j < lines.len() {
        let t = trim_end(lines[j]);
        if !(t.len() > 0 && t.last() == quote) {
            lemma_multiline_scan_end(lines, j + 1, quote, buf + seq!['\n'] + lines[j]);
        }
    }
}

pub proof fn lemma_lines_consumed(lines: Seq<Seq<char>>, idx: int)
    requires
        0 <= idx < lines.len(),
    ensures
        1 <= lines_consumed(lines, idx) <= lines.len() - idx,
{
    if is_assignment_line(lines, idx) {
        let raw = assignment_raw_value(trim(lines[idx]));
        if spec_starts_with_unclosed_quote(raw) {
            lemma_multiline_scan_end(lines, idx + 1, raw[0], raw.drop_first());
        }
    }
}

/// The entries of `lines[idx..]`, where `seen` holds the keys already
/// assigned by the lines before `idx`.
pub open spec fn parse_lines_from(lines: Seq<Seq<char>>, idx: int, seen: Set<Seq<char>>) -> Seq<
    EnvEntryView,
>
    decreases lines.len() - idx,
{
    if idx < 0 || idx >= lines.len() {
        seq![]
    } else {
        proof {
            lemma_lines_consumed(lines, idx);
        }
        let next = idx + lines_consumed(lines, idx);
        if is_blank_line(lines, idx) {
            seq![spec_empty_entry((idx + 1) as nat)] + parse_lines_from(lines, next, seen)
        } else if is_comment_line(lines, idx) {
            seq![spec_comment_entry(trim(lines[idx]), (idx + 1) as nat)] + parse_lines_from(
                lines,
                next,
                seen,
            )
        } else if is_assignment_line(lines, idx) {
            let key = assignment_key(trim(lines[idx]));
            seq![spec_assignment_entry(lines, idx, seen.contains(key))] + parse_lines_from(
                lines,
                next,
                seen.insert(key),
            )
        } else {
            seq![spec_malformed_entry(trim(lines[idx]), (idx + 1) as nat)] + parse_lines_from(
                lines,
                next,
                seen,
            )
        }
    }
}

/// The entries of a whole `.env` text.
pub open spec fn spec_parse_content(content: Seq<char>) -> Seq<EnvEntryView> {
    parse_lines_from(lines(content), 0, Set::empty())
}

// ---------------------------------------------------------------------------
// Implementation
// ---------------------------------------------------------------------------

/// The `i`-th sensitive pattern.
fn sensitive_pattern(i: usize) -> (p: &'static str)
    requires
        i < sensitive_patterns().len(),
    ensures
        p@ == sensitive_patterns()[i as int],
{
    match i {
        0 => "SECRET",
        1 => "TOKEN",
        2 => "PASSWORD",
        3 => "PASSWD",
        4 => "KEY",
        5 => "PRIVATE",
        6 => "CREDENTIAL",
        7 => "AUTH",
        8 => "API_KEY",
        9 => "APIKEY",
        _ => "ACCESS",
    }
}

/// Whether the key looks like it holds a secret: its upper-cased form
/// contains one of the sensitive patterns.
pub fn detect_sensitive(key: &str) -> (res: bool)
    ensures
        res == spec_detect_sensitive(key@),
{
    let upper_s = to_uppercase(key);
    let upper = chars_of(upper_s.as_str());
    let mut i: usize = 0;
    while i < 11
        invariant
            i <= 11,
            sensitive_patterns().len() == 11,
            upper@ == unicode_uppercase(key@),
            forall|k: int| 0 <= k < i ==> !contains(upper@, #[trigger] sensitive_patterns()[k]),
        decreases 11 - i,
    {
        let pat = chars_of(sensitive_pattern(i));
        if contains_chars(upper.as_slice(), pat.as_slice()) {
            assert(contains(unicode_uppercase(key@), sensitive_patterns()[i as int]));
            return true;
        }
        i += 1;
    }
    false
}

fn detect_variable_expansion_chars(value: &[char]) -> (res: bool)
    ensures
        res == spec_detect_variable_expansion(value@),
{
    let mut pat: Vec<char> = Vec::new();
    pat.push('$');
    pat.push('{');
    assert(pat@ =~= seq!['$', '{']);
    contains_chars(value, pat.as_slice())
}

/// Whether the value uses `${...}` variable expansion.
pub fn detect_variable_expansion(value: &str) -> (res: bool)
    ensures
        res == spec_detect_variable_expansion(value@),
{
    let v = chars_of(value);
    detect_variable_expansion_chars(v.as_slice())
}

fn starts_with_unclosed_quote_chars(val: &[char]) -> (res: bool)
    ensures
        res == spec_starts_with_unclosed_quote(val@),
{
    if val.len() == 0 {
        return false;
    }
    let quote = val[0];
    if quote != '"' && quote != '\'' {
        return false;
    }
    !(val.len() >= 2 && val[val.len() - 1] == quote)
}

/// Whether the value opens a quote that the same line does not close.
pub fn starts_with_unclosed_quote(val: &str) -> (res: bool)
    ensures
        res == spec_starts_with_unclosed_quote(val@),
{
    let v = chars_of(val);
    starts_with_unclosed_quote_chars(v.as_slice())
}

fn strip_quotes_chars(val: &[char]) -> (r: Vec<char>)
    ensures
        r@ == spec_strip_quotes(val@),
{
    let n = val.len();
    if n >= 2 && (val[0] == '"' || val[0] == '\'') && val[n - 1] == val[0] {
        copy_range(val, 1, n - 1)
    } else {
        copy_range(val, 0, n)
    }
}

/// The value without one matching pair of surrounding quotes.
pub fn strip_quotes(val: &str) -> (r: String)
    ensures
        r@ == spec_strip_quotes(val@),
{
    let v = chars_of(val);
    let r = strip_quotes_chars(v.as_slice());
    string_of(r.as_slice())
}

/// Appends `s[lo..hi]` to `buf`.
fn push_range(buf: &mut Vec<char>, s: &[char], lo: usize, hi: usize)
    requires
        lo <= hi <= s@.len(),
    ensures
        final(buf)@ == old(buf)@ + s@.subrange(lo as int, hi as int),
{
    let mut tail = copy_range(s, lo, hi);
    buf.append(&mut tail);
}

fn collect_multiline_chars(
    lines: &Vec<Vec<char>>,
    start: usize,
    first: &[char],
    Ghost(ls): Ghost<Seq<Seq<char>>>,
) -> (r: (Vec<char>, usize))
    requires
        start < lines@.len(),
        first@.len() > 0,
        ls.len() == lines@.len(),
        forall|i: int| 0 <= i < ls.len() ==> #[trigger] lines@[i]@ == ls[i],
    ensures
        (r.0@, r.1 as int) == spec_collect_multiline(ls, start as int, first@),
{
    let n: usize = lines.len();
    let quote = first[0];
    let mut buf = copy_range(first, 1, first.len());
    assert(buf@ =~= first@.drop_first());
    let mut j: usize = start + 1;
    while j < lines.len()
        invariant
            start + 1 <= j <= lines@.len(),
            ls.len() == lines@.len(),
            forall|i: int| 0 <= i < ls.len() ==> #[trigger] lines@[i]@ == ls[i],
            quote == first@[0],
            multiline_scan(ls, j as int, quote, buf@) == multiline_scan(
                ls,
                start + 1,
                quote,
                first@.drop_first(),
            ),
        decreases lines@.len() - j,
    {
        let t = trim_end_chars(lines[j].as_slice());
        let ghost old_buf0 = buf@;
        assert(lines@[j as int]@ == ls[j as int]);
        if t.len() > 0 && t[t.len() - 1] == quote {
            buf.push('\n');
            push_range(&mut buf, t.as_slice(), 0, t.len() - 1);
            assert(t@.subrange(0, t@.len() - 1) =~= t@.drop_last());
            assert(buf@ =~= multiline_scan(ls, j as int, quote, old_buf0).0);
            return (buf, j + 1 - start);
        }
        let ghost old_buf = buf@;
        buf.push('\n');
        push_range(&mut buf, lines[j].as_slice(), 0, lines[j].len());
        assert(lines@[j as int]@.subrange(0, lines@[j as int]@.len() as int) =~= ls[j as int]);
        assert(buf@ =~= old_buf + seq!['\n'] + ls[j as int]);
        j += 1;
    }
    (buf, j - start)
}

/// The views of a list of lines.
pub open spec fn lines_view(lines: Seq<&str>) -> Seq<Seq<char>> {
    lines.map_values(|l: &str| l@)
}

/// Gathers a quoted value that spans several lines. `first_fragment` is the
/// text after `=` on line `start`, beginning with the opening quote; the
/// following lines are appended (separated by `\n`) up to the first one whose
/// right-trimmed text ends with that quote. Returns the value and the number
/// of lines it spans, counting line `start`.
pub fn collect_multiline(lines: &[&str], start: usize, first_fragment: &str) -> (r: (String, usize))
    requires
        start < lines@.len(),
        first_fragment@.len() > 0,
        (first_fragment@[0] as u32) < 128,
    ensures
        (r.0@, r.1 as int) == spec_collect_multiline(
            lines_view(lines@),
            start as int,
            first_fragment@,
        ),
{
    let ghost ls = lines_view(lines@);
    let mut v: Vec<Vec<char>> = Vec::new();
    let mut i: usize = 0;
    while i < lines.len()
        invariant
            i <= lines@.len(),
            ls == lines_view(lines@),
            v@.len() == i,
            forall|k: int| 0 <= k < i ==> #[trigger] v@[k]@ == ls[k],
        decreases lines@.len() - i,
    {
        v.push(chars_of(lines[i]));
        i += 1;
    }
    let first = chars_of(first_fragment);
    let (buf, consumed) = collect_multiline_chars(&v, start, first.as_slice(), Ghost(ls));
    (string_of(buf.as_slice()), consumed)
}

fn empty_entry(line: usize) -> (e: EnvEntry)
    ensures
        e@ == spec_empty_entry(line as nat),
{
    let key = String::new();
    let value = String::new();
    EnvEntry {
        key,
        value,
        line_number: line,
        is_comment: false,
        is_empty: true,
        is_duplicate: false,
        has_format_error: false,
        is_sensitive: false,
        expands_variables: false,
    }
}

fn comment_entry(text: &str, line: usize) -> (e: EnvEntry)
    ensures
        e@ == spec_comment_entry(text@, line as nat),
{
    let key = text.to_owned();
    let value = String::new();
    EnvEntry {
        key,
        value,
        line_number: line,
        is_comment: true,
        is_empty: false,
        is_duplicate: false,
        has_format_error: false,
        is_sensitive: false,
        expands_variables: false,
    }
}

fn malformed_entry(text: &str, line: usize) -> (e: EnvEntry)
    ensures
        e@ == spec_malformed_entry(text@, line as nat),
{
    let key = text.to_owned();
    let value = String::new();
    EnvEntry {
        key,
        value,
        line_number: line,
        is_comment: false,
        is_empty: false,
        is_duplicate: false,
        has_format_error: true,
        is_sensitive: false,
        expands_variables: false,
    }
}

/// The set of keys held by a list of keys.
pub open spec fn key_set(seen: Seq<Vec<char>>) -> Set<Seq<char>> {
    Set::new(|k: Seq<char>| exists|i: int| 0 <= i < seen.len() && #[trigger] seen[i]@ == k)
}

fn seen_contains(seen: &Vec<Vec<char>>, key: &[char]) -> (b: bool)
    ensures
        b == key_set(seen@).contains(key@),
{
    let mut i: usize = 0;
    while i < seen.len()
        invariant
            i <= seen@.len(),
            forall|k: int| 0 <= k < i ==> #[trigger] seen@[k]@ != key@,
        decreases seen@.len() - i,
    {
        if chars_eq(seen[i].as_slice(), key) {
            assert(seen@[i as int]@ == key@);
            return true;
        }
        i += 1;
    }
    false
}

/// Parses the text of a `.env` file into entries, one per line, except that
/// a quoted value left open on its line continues over the following lines
/// and yields a single entry. Never fails.
pub fn parse_content(content: &str) -> (res: Result<Vec<EnvEntry>, String>)
    ensures
        res matches Ok(v) && entries_view(v@) == spec_parse_content(content@),
{
    let cs = chars_of(content);
    let rows = split_lines(cs.as_slice());
    let ghost ls = lines(content@);
    let mut seen: Vec<Vec<char>> = Vec::new();
    let mut entries: Vec<EnvEntry> = Vec::new();
    let mut idx: usize = 0;
    assert(key_set(seen@) =~= Set::<Seq<char>>::empty());
    assert(entries_view(entries@) + spec_parse_content(content@) =~= spec_parse_content(content@));
    while idx < rows.len()
        invariant
            ls == lines(content@),
            rows@.len() == ls.len(),
            forall|i: int| 0 <= i < ls.len() ==> #[trigger] rows@[i]@ == ls[i],
            idx <= rows@.len(),
            entries_view(entries@) + parse_lines_from(ls, idx as int, key_set(seen@))
                == spec_parse_content(content@),
        decreases rows@.len() - idx,
    {
        let ghost old_entries = entries_view(entries@);
        let ghost s0 = key_set(seen@);
        proof {
            lemma_lines_consumed(ls, idx as int);
        }
        let line = trim_chars(rows[idx].as_slice());
        assert(line@ == trim(ls[idx as int]));
        let step: usize;
        let entry: EnvEntry;
        if line.len() == 0 {
            entry = empty_entry(idx + 1);
            step = 1;
        } else if line[0] == '#' {
            let text = string_of(line.as_slice());
            entry = comment_entry(text.as_str(), idx + 1);
            step = 1;
        } else {
            let eq = find_char(line.as_slice(), '=');
            proof {
                lemma_index_of(line@, '=');
            }
            if eq < line.len() {
                let raw_key = copy_range(line.as_slice(), 0, eq);
                let key = trim_chars(raw_key.as_slice());
                let raw_tail = copy_range(line.as_slice(), eq + 1, line.len());
                let raw = trim_chars(raw_tail.as_slice());
                let value: Vec<char>;
                if starts_with_unclosed_quote_chars(raw.as_slice()) {
                    let (v, c) = collect_multiline_chars(&rows, idx, raw.as_slice(), Ghost(ls));
                    value = v;
                    step = c;
                } else {
                    value = strip_quotes_chars(raw.as_slice());
                    step = 1;
                }
                let is_duplicate = seen_contains(&seen, key.as_slice());
                let has_format_error = key.len() == 0 || contains_char(key.as_slice(), ' ');
                let expands_variables = detect_variable_expansion_chars(value.as_slice());
                let key_s = string_of(key.as_slice());
                let is_sensitive = detect_sensitive(key_s.as_str());
                let value_s = string_of(value.as_slice());
                entry = EnvEntry {
                    key: key_s,
                    value: value_s,
                    line_number: idx + 1,
                    is_comment: false,
                    is_empty: false,
                    is_duplicate,
                    has_format_error,
                    is_sensitive,
                    expands_variables,
                };
                if !is_duplicate {
                    let ghost before = seen@;
                    seen.push(key);
                    proof {
                        assert(key_set(seen@) =~= s0.insert(key@)) by {
                            assert forall|k: Seq<char>| key_set(seen@).contains(k) implies s0.insert(
                                k,
                            ).contains(k) && s0.insert(key@).contains(k) by {
                                let i = choose|i: int| 0 <= i < seen@.len() && #[trigger] seen@[i]@ == k;
                                if i < before.len() {
                                    assert(before[i] == seen@[i]);
                                }
                            }
                            assert forall|k: Seq<char>| s0.insert(key@).contains(k) implies key_set(
                                seen@,
                            ).contains(k) by {
                                if k == key@ {
                                    assert(seen@[before.len() as int]@ == k);
                                } else {
                                    let i = choose|i: int| 0 <= i < before.len() && #[trigger] before[i]@ == k;
                                    assert(seen@[i]@ == k);
                                }
                            }
                        }
                    }
                } else {
                    assert(s0.insert(key@) =~= s0);
                }
            } else {
                let text = string_of(line.as_slice());
                entry = malformed_entry(text.as_str(), idx + 1);
                step = 1;
            }
        }
        let ghost e = entry@;
        entries.push(entry);
        proof {
            assert(entries_view(entries@) =~= old_entries.push(e));
        }
        idx = idx + step;
    }
    assert(parse_lines_from(ls, idx as int, key_set(seen@)) =~= Seq::<EnvEntryView>::empty());
    assert(entries_view(entries@) =~= spec_parse_content(content@));
    Ok(entries)
}

// ---------------------------------------------------------------------------
// Laws
// ---------------------------------------------------------------------------

/// What every entry satisfies on its own: a blank line carries nothing, a
/// comment keeps its `#` text and no flag, keys are trimmed, and the two
/// heuristics hold exactly when their flag is set on assignments.
pub open spec fn entry_consistent(e: EnvEntryView) -> bool {
    &&& e.is_empty ==> {
        &&& e.key.len() == 0
        &&& e.value.len() == 0
        &&& !e.is_comment && !e.is_duplicate && !e.has_format_error
        &&& !e.is_sensitive && !e.expands_variables
    }
    &&& e.is_comment ==> {
        &&& e.key.len() > 0 && e.key[0] == '#'
        &&& e.value.len() == 0
        &&& !e.is_empty && !e.is_duplicate && !e.has_format_error
        &&& !e.is_sensitive && !e.expands_variables
    }
    &&& trim(e.key) == e.key
    &&& e.is_sensitive ==> spec_detect_sensitive(e.key)
    &&& e.expands_variables ==> spec_detect_variable_expansion(e.value)
    &&& (!e.is_comment && !e.is_empty && spec_key_format_error(e.key)) ==> e.has_format_error
}

/// An earlier entry in `r` (before `i`) assigns the key of `r[i]`.
pub open spec fn assigned_before(r: Seq<EnvEntryView>, i: int) -> bool {
    exists|j: int|
        0 <= j < i && #[trigger] r[j].key == r[i].key && !r[j].is_comment && !r[j].is_empty
}

pub proof fn lemma_parse_lines_from(lines: Seq<Seq<char>>, idx: int, seen: Set<Seq<char>>)
    requires
        0 <= idx <= lines.len(),
    ensures
        ({
            let r = parse_lines_from(lines, idx, seen);
            &&& r.len() <= lines.len() - idx
            &&& forall|i: int|
                0 <= i < r.len() ==> idx + 1 <= #[trigger] r[i].line_number <= lines.len()
            &&& forall|i: int, j: int|
                0 <= i < j < r.len() ==> #[trigger] r[i].line_number < #[trigger] r[j].line_number
            &&& forall|i: int| 0 <= i < r.len() ==> entry_consistent(#[trigger] r[i])
            &&& forall|i: int|
                0 <= i < r.len() && #[trigger] r[i].is_duplicate ==> seen.contains(r[i].key)
                    || assigned_before(r, i)
        }),
    decreases lines.len() - idx,
{
    if idx < lines.len() {
        lemma_lines_consumed(lines, idx);
        let next = idx + lines_consumed(lines, idx);
        let line = trim(lines[idx]);
        lemma_trim_idempotent(lines[idx]);
        let seen2 = if is_assignment_line(lines, idx) {
            seen.insert(assignment_key(line))
        } else {
            seen
        };
        lemma_parse_lines_from(lines, next, seen2);
        let rest = parse_lines_from(lines, next, seen2);
        let r = parse_lines_from(lines, idx, seen);
        let e = r[0];
        assert(r == seq![e] + rest);
        if is_assignment_line(lines, idx) {
            lemma_index_of(line, '=');
            lemma_trim_idempotent(line.subrange(0, index_of(line, '=')));
        }
        assert forall|i: int| 0 <= i < r.len() implies entry_consistent(#[trigger] r[i]) by {
            if i > 0 {
                assert(r[i] == rest[i - 1]);
            }
        }
        assert forall|i: int|
            0 <= i < r.len() implies idx + 1 <= #[trigger] r[i].line_number <= lines.len() by {
            if i > 0 {
                assert(r[i] == rest[i - 1]);
            }
        }
        assert forall|i: int, j: int|
            0 <= i < j < r.len() implies #[trigger] r[i].line_number < #[trigger] r[j].line_number by {
            assert(r[j] == rest[j - 1]);
            if i > 0 {
                assert(r[i] == rest[i - 1]);
            }
        }
        assert forall|i: int|
            0 <= i < r.len() && #[trigger] r[i].is_duplicate implies seen.contains(r[i].key)
                || assigned_before(r, i) by {
            if i > 0 {
                assert(r[i] == rest[i - 1]);
                if seen2.contains(r[i].key) && !seen.contains(r[i].key) {
                    assert(r[0].key == r[i].key);
                    assert(assigned_before(r, i));
                } else if !seen2.contains(r[i].key) {
                    let j = choose|j: int|
                        0 <= j < i - 1 && #[trigger] rest[j].key == rest[i - 1].key
                            && !rest[j].is_comment && !rest[j].is_empty;
                    assert(r[j + 1] == rest[j]);
                    assert(assigned_before(r, i));
                }
            }
        }
    }
}

/// Laws of the parser over a whole text: there are at most as many entries
/// as lines; line numbers are 1-based, within the file and strictly
/// increasing; each entry is consistent on its own; and an entry is marked
/// as a duplicate only when an earlier assignment used the same key.
pub proof fn lemma_parse_content_laws(content: Seq<char>)
    ensures
        ({
            let r = spec_parse_content(content);
            &&& r.len() <= lines(content).len()
            &&& forall|i: int|
                0 <= i < r.len() ==> 1 <= #[trigger] r[i].line_number <= lines(content).len()
            &&& forall|i: int, j: int|
                0 <= i < j < r.len() ==> #[trigger] r[i].line_number < #[trigger] r[j].line_number
            &&& forall|i: int| 0 <= i < r.len() ==> entry_consistent(#[trigger] r[i])
            &&& forall|i: int| 0 <= i < r.len() && #[trigger] r[i].is_duplicate ==> assigned_before(r, i)
        }),
{
    lemma_parse_lines_from(lines(content), 0, Set::empty());
}


/// The entry starts on an assignment line of `lines`.
pub open spec fn assigns_at(lines: Seq<Seq<char>>, e: EnvEntryView) -> bool {
    is_assignment_line(lines, e.line_number - 1)
}

/// Some entry before `i` in `r` starts on an assignment line and has the key
/// of `r[i]`.
pub open spec fn key_assigned_before(lines: Seq<Seq<char>>, r: Seq<EnvEntryView>, i: int) -> bool {
    exists|j: int| 0 <= j < i && assigns_at(lines, #[trigger] r[j]) && r[j].key == r[i].key
}

proof fn lemma_duplicates_from(lines: Seq<Seq<char>>, idx: int, seen: Set<Seq<char>>)
    requires
        0 <= idx <= lines.len(),
    ensures
        ({
            let r = parse_lines_from(lines, idx, seen);
            &&& forall|i: int|
                0 <= i < r.len() && assigns_at(lines, #[trigger] r[i]) ==> (r[i].is_duplicate <==> (
                seen.contains(r[i].key) || key_assigned_before(lines, r, i)))
            &&& forall|i: int|
                0 <= i < r.len() && !assigns_at(lines, #[trigger] r[i]) ==> !r[i].is_duplicate
        }),
    decreases lines.len() - idx,
{
    if idx < lines.len() {
        lemma_lines_consumed(lines, idx);
        let next = idx + lines_consumed(lines, idx);
        let line = trim(lines[idx]);
        let assign = is_assignment_line(lines, idx);
        let seen2 = if assign {
            seen.insert(assignment_key(line))
        } else {
            seen
        };
        lemma_duplicates_from(lines, next, seen2);
        let rest = parse_lines_from(lines, next, seen2);
        let r = parse_lines_from(lines, idx, seen);
        let e = r[0];
        assert(r == seq![e] + rest);
        assert(e.line_number == idx + 1);
        assert(assigns_at(lines, e) == assign);
        assert forall|i: int|
            0 <= i < r.len() && !assigns_at(lines, #[trigger] r[i]) implies !r[i].is_duplicate by {
            if i > 0 {
                assert(r[i] == rest[i - 1]);
            }
        }
        assert forall|i: int|
            0 <= i < r.len() && assigns_at(lines, #[trigger] r[i]) implies (r[i].is_duplicate <==> (
            seen.contains(r[i].key) || key_assigned_before(lines, r, i))) by {
            if i == 0 {
                assert(!key_assigned_before(lines, r, 0));
            } else {
                assert(r[i] == rest[i - 1]);
                if key_assigned_before(lines, rest, i - 1) {
                    let j = choose|j: int|
                        0 <= j < i - 1 && assigns_at(lines, #[trigger] rest[j]) && rest[j].key
                            == rest[i - 1].key;
                    assert(r[j + 1] == rest[j]);
                    assert(key_assigned_before(lines, r, i));
                }
                if key_assigned_before(lines, r, i) {
                    let j = choose|j: int|
                        0 <= j < i && assigns_at(lines, #[trigger] r[j]) && r[j].key == r[i].key;
                    if j > 0 {
                        assert(r[j] == rest[j - 1]);
                        assert(key_assigned_before(lines, rest, i - 1));
                    } else {
                        assert(assign);
                        assert(seen2.contains(r[i].key));
                    }
                }
                if assign && r[i].key == e.key {
                    assert(key_assigned_before(lines, r, i));
                }
            }
        }
    }
}

/// The line that entry `e` of `content` starts on, trimmed, is not blank, is
/// not a comment and holds an `=`: the entry assigns a key.
pub open spec fn starts_assignment(content: Seq<char>, e: EnvEntryView) -> bool {
    let t = trim(lines(content)[e.line_number - 1]);
    &&& t.len() > 0
    &&& t[0] != '#'
    &&& exists|k: int| 0 <= k < t.len() && t[k] == '='
}

proof fn lemma_starts_assignment(content: Seq<char>, e: EnvEntryView)
    ensures
        starts_assignment(content, e) == assigns_at(lines(content), e),
{
    let t = trim(lines(content)[e.line_number - 1]);
    lemma_index_of(t, '=');
    if exists|k: int| 0 <= k < t.len() && t[k] == '=' {
        let k = choose|k: int| 0 <= k < t.len() && t[k] == '=';
        assert(index_of(t, '=') <= k);
    }
}

/// Duplicate keys are flagged over the whole file: an entry that assigns a
/// key is a duplicate exactly when some earlier entry, anywhere before it in
/// the file (blank lines and comments in between or not), assigns the same
/// key; entries that assign nothing are never duplicates.
pub proof fn lemma_duplicates_exact(content: Seq<char>)
    ensures
        ({
            let r = spec_parse_content(content);
            &&& forall|i: int|
                0 <= i < r.len() && starts_assignment(content, #[trigger] r[i]) ==> (r[i].is_duplicate
                    <==> exists|j: int|
                    0 <= j < i && starts_assignment(content, #[trigger] r[j]) && r[j].key
                        == r[i].key)
            &&& forall|i: int|
                0 <= i < r.len() && !starts_assignment(content, #[trigger] r[i])
                    ==> !r[i].is_duplicate
        }),
{
    let ls = lines(content);
    let r = spec_parse_content(content);
    lemma_duplicates_from(ls, 0, Set::empty());
    assert forall|i: int|
        0 <= i < r.len() && !starts_assignment(content, #[trigger] r[i]) implies !r[i].is_duplicate by {
        lemma_starts_assignment(content, r[i]);
    }
    assert forall|i: int|
        0 <= i < r.len() && starts_assignment(content, #[trigger] r[i]) implies (r[i].is_duplicate
            <==> exists|j: int|
            0 <= j < i && starts_assignment(content, #[trigger] r[j]) && r[j].key == r[i].key) by {
        lemma_starts_assignment(content, r[i]);
        if key_assigned_before(ls, r, i) {
            let j = choose|j: int| 0 <= j < i && assigns_at(ls, #[trigger] r[j]) && r[j].key == r[i].key;
            lemma_starts_assignment(content, r[j]);
        }
        if exists|j: int| 0 <= j < i && starts_assignment(content, #[trigger] r[j]) && r[j].key == r[i].key {
            let j = choose|j: int| 0 <= j < i && starts_assignment(content, #[trigger] r[j]) && r[j].key == r[i].key;
            lemma_starts_assignment(content, r[j]);
            assert(key_assigned_before(ls, r, i));
        }
    }
}

} // verus!
