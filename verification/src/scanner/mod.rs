//! Discovery and parsing of `.env` files.
pub mod parser;

use vstd::prelude::*;

use vstd::relations::sorted_by;

use crate::scanner::parser::{entries_view, EnvEntry, EnvEntryView};
use crate::text::{
    chars_eq, chars_leq, chars_of, lemma_text_leq_total, lemma_text_leq_transitive,
    lemma_text_order_total, text_leq, text_order,
};

verus! {

/// A scanned `.env` file and its entries.
pub struct EnvFile {
    pub filename: String,
    pub entries: Vec<EnvEntry>,
}

pub struct EnvFileView {
    pub filename: Seq<char>,
    pub entries: Seq<EnvEntryView>,
}

impl View for EnvFile {
    type V = EnvFileView;

    open spec fn view(&self) -> EnvFileView {
        EnvFileView { filename: self.filename@, entries: entries_view(self.entries@) }
    }
}

/// The views of a list of files.
pub open spec fn files_view(files: Seq<EnvFile>) -> Seq<EnvFileView> {
    files.map_values(|f: EnvFile| f@)
}

/// The result of scanning a directory.
pub struct ScanResult {
    pub directory: String,
    pub folder_name: String,
    pub files: Vec<EnvFile>,
}

/// `p` starts `s`.
pub open spec fn starts_with(s: Seq<char>, p: Seq<char>) -> bool {
    p.len() <= s.len() && s.subrange(0, p.len() as int) == p
}

/// `p` ends `s`.
pub open spec fn ends_with(s: Seq<char>, p: Seq<char>) -> bool {
    p.len() <= s.len() && s.subrange(s.len() - p.len(), s.len() as int) == p
}

/// A file name that the scanner treats as an environment file.
pub open spec fn spec_is_env_file(name: Seq<char>) -> bool {
    ||| name == ".env"@
    ||| starts_with(name, ".env."@)
    ||| ends_with(name, ".env"@)
    ||| name == ".env.example"@
}

/// Which names are environment files: `.env` itself, every name whose first
/// five characters are `.env.` (whatever follows), and every name whose last
/// four characters are `.env`; no other name is one.
pub proof fn lemma_env_file_names(n: Seq<char>)
    ensures
        n == ".env"@ ==> spec_is_env_file(n),
        n.len() >= 5 && n.subrange(0, 5) == ".env."@ ==> spec_is_env_file(n),
        n.len() >= 4 && n.subrange(n.len() - 4, n.len() as int) == ".env"@ ==> spec_is_env_file(n),
        spec_is_env_file(n) ==> {
            ||| n == ".env"@
            ||| n.len() >= 5 && n.subrange(0, 5) == ".env."@
            ||| n.len() >= 4 && n.subrange(n.len() - 4, n.len() as int) == ".env"@
        },
{
    reveal_strlit(".env");
    reveal_strlit(".env.");
    reveal_strlit(".env.example");
    if n == ".env.example"@ {
        assert(n.subrange(0, 5) =~= ".env."@);
    }
}

fn starts_with_chars(s: &[char], p: &[char]) -> (res: bool)
    ensures
        res == starts_with(s@, p@),
{
    if p.len() > s.len() {
        return false;
    }
    let mut i: usize = 0;
    while i < p.len()
        invariant
            p@.len() <= s@.len(),
            i <= p@.len(),
            forall|k: int| 0 <= k < i ==> s@[k] == p@[k],
        decreases p@.len() - i,
    {
        if s[i] != p[i] {
            assert(s@.subrange(0, p@.len() as int)[i as int] != p@[i as int]);
            return false;
        }
        i += 1;
    }
    assert(s@.subrange(0, p@.len() as int) =~= p@);
    true
}

fn ends_with_chars(s: &[char], p: &[char]) -> (res: bool)
    ensures
        res == ends_with(s@, p@),
{
    if p.len() > s.len() {
        return false;
    }
    let n: usize = s.len();
    let off = n - p.len();
    let mut i: usize = 0;
    while i < p.len()
        invariant
            n == s@.len(),
            p@.len() <= s@.len(),
            off == s@.len() - p@.len(),
            i <= p@.len(),
            forall|k: int| 0 <= k < i ==> s@[off + k] == p@[k],
        decreases p@.len() - i,
    {
        if s[off + i] != p[i] {
            assert(s@.subrange(off as int, s@.len() as int)[i as int] != p@[i as int]);
            return false;
        }
        i += 1;
    }
    assert(s@.subrange(off as int, s@.len() as int) =~= p@);
    true
}

/// Whether a file name is that of an environment file: `.env`, a name that
/// starts with `.env.` or ends with `.env`.
pub fn is_env_file(name: &str) -> (res: bool)
    ensures
        res == spec_is_env_file(name@),
{
    let n = chars_of(name);
    let env = chars_of(".env");
    let env_dot = chars_of(".env.");
    let example = chars_of(".env.example");
    chars_eq(n.as_slice(), env.as_slice()) || starts_with_chars(n.as_slice(), env_dot.as_slice())
        || ends_with_chars(n.as_slice(), env.as_slice()) || chars_eq(
        n.as_slice(),
        example.as_slice(),
    )
}

/// The views of a list of strings.
pub open spec fn strings_view(v: Seq<String>) -> Seq<Seq<char>> {
    v.map_values(|s: String| s@)
}

/// The environment files among the names, in sorted order (as `Vec::sort`
/// orders `String`s).
pub open spec fn spec_select_env_files(names: Seq<Seq<char>>) -> Seq<Seq<char>> {
    names.filter(|n: Seq<char>| spec_is_env_file(n)).sort_by(text_order())
}

proof fn lemma_insert_sorted(s: Seq<Seq<char>>, p: int, x: Seq<char>)
    requires
        0 <= p <= s.len(),
        sorted_by(s, text_order()),
        forall|k: int| 0 <= k < p ==> text_leq(#[trigger] s[k], x),
        p < s.len() ==> !text_leq(s[p], x),
    ensures
        sorted_by(s.insert(p, x), text_order()),
{
    let t = s.insert(p, x);
    if p < s.len() {
        lemma_text_leq_total(s[p], x);
    }
    assert forall|i: int, j: int| 0 <= i < j < t.len() implies #[trigger] text_order()(t[i], t[j]) by {
        if j < p {
            assert(text_order()(s[i], s[j]));
        } else if j == p {
            assert(t[i] == s[i]);
        } else if i < p {
            assert(t[j] == s[j - 1]);
            if i < j - 1 {
                assert(text_order()(s[i], s[j - 1]));
            }
        } else if i == p {
            assert(t[j] == s[j - 1]);
            if j - 1 > p {
                assert(text_order()(s[p], s[j - 1]));
                lemma_text_leq_transitive(x, s[p], s[j - 1]);
            }
        } else {
            assert(text_order()(s[i - 1], s[j - 1]));
        }
    }
}

/// Keeps the names of environment files and sorts them.
pub fn select_env_files(names: Vec<String>) -> (res: Vec<String>)
    ensures
        strings_view(res@) == spec_select_env_files(strings_view(names@)),
{
    broadcast use vstd::seq_lib::group_to_multiset_ensures;

    let ghost nv = strings_view(names@);
    let ghost pred = |n: Seq<char>| spec_is_env_file(n);
    let mut out: Vec<String> = Vec::new();
    let mut i: usize = 0;
    while i < names.len()
        invariant
            nv == strings_view(names@),
            nv.len() == names@.len(),
            i <= names@.len(),
            pred == (|n: Seq<char>| spec_is_env_file(n)),
            sorted_by(strings_view(out@), text_order()),
            strings_view(out@).to_multiset() == nv.take(i as int).filter(pred).to_multiset(),
        decreases names@.len() - i,
    {
        let name = &names[i];
        let ghost ov = strings_view(out@);
        assert(nv.take(i + 1).drop_last() =~= nv.take(i as int));
        assert(nv.take(i + 1).last() == name@);
        if is_env_file(name.as_str()) {
            let nc = chars_of(name.as_str());
            let mut p: usize = 0;
            while p < out.len() && chars_leq(chars_of(out[p].as_str()).as_slice(), nc.as_slice())
                invariant
                    p <= out@.len(),
                    ov == strings_view(out@),
                    nc@ == name@,
                    forall|k: int| 0 <= k < p ==> text_leq(#[trigger] ov[k], name@),
                decreases out@.len() - p,
            {
                p += 1;
            }
            proof {
                lemma_insert_sorted(ov, p as int, name@);
            }
            out.insert(p, name.clone());
            assert(strings_view(out@) =~= ov.insert(p as int, name@));
            proof {
                reveal_with_fuel(Seq::<_>::filter, 1);
                assert(pred(name@));
                assert(nv.take(i + 1).filter(pred) == nv.take(i as int).filter(pred).push(name@));
                vstd::seq_lib::to_multiset_insert(ov, p as int, name@);
                vstd::seq_lib::to_multiset_build(nv.take(i as int).filter(pred), name@);
            }
        } else {
            proof {
                reveal_with_fuel(Seq::<_>::filter, 1);
                assert(!pred(name@));
                assert(nv.take(i + 1).filter(pred) == nv.take(i as int).filter(pred));
            }
        }
        i += 1;
    }
    proof {
        assert(nv.take(i as int) =~= nv);
        let f = nv.filter(pred);
        lemma_text_order_total();
        f.lemma_sort_by_ensures(text_order());
        vstd::seq_lib::lemma_sorted_unique(strings_view(out@), f.sort_by(text_order()), text_order());
    }
    out
}

} // verus!
