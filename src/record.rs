use vstd::prelude::*;
use crate::text::{find, find_char, lines_of, split_lines, split_prefix};

verus! {

/// The provenance kept for one package after a successful build.
#[derive(Debug, PartialEq, Eq)]
pub enum BuildRecord {
    /// The changelog version that was last built.
    Changelog { version: String },
    /// Every (branch, commit) pair built so far, oldest first.
    Commit { entries: Vec<(String, String)> },
}

/// The mathematical value of a record.
pub enum RecordModel {
    Changelog(Seq<char>),
    Commit(Seq<(Seq<char>, Seq<char>)>),
}

pub open spec fn pair_view(e: (String, String)) -> (Seq<char>, Seq<char>) {
    (e.0@, e.1@)
}

impl View for BuildRecord {
    type V = RecordModel;

    open spec fn view(&self) -> RecordModel {
        match self {
            BuildRecord::Changelog { version } => RecordModel::Changelog(version@),
            BuildRecord::Commit { entries } => RecordModel::Commit(
                entries@.map_values(|e: (String, String)| pair_view(e)),
            ),
        }
    }
}

/// The line that stands for one (branch, commit) pair.
pub open spec fn entry_line(e: (Seq<char>, Seq<char>)) -> Seq<char> {
    e.0 + " "@ + e.1
}

/// The pairs, each on a line of its own after a line feed.
pub open spec fn entry_lines(es: Seq<(Seq<char>, Seq<char>)>) -> Seq<char>
    decreases es.len(),
{
    if es.len() == 0 {
        Seq::empty()
    } else {
        entry_lines(es.drop_last()) + "\n"@ + entry_line(es.last())
    }
}

/// The text of a record file.
pub open spec fn render(m: RecordModel) -> Seq<char> {
    match m {
        RecordModel::Changelog(v) => "changelog\n"@ + v,
        RecordModel::Commit(es) => "commit"@ + entry_lines(es),
    }
}

/// The pair that a commit line holds: the text before its first space and the
/// text after it. A line without a space holds none.
pub open spec fn parse_entry(l: Seq<char>) -> Option<(Seq<char>, Seq<char>)> {
    let k = find_char(l, ' ', 0);
    if k < l.len() {
        Some((l.take(k), l.skip(k + 1)))
    } else {
        None
    }
}

/// The pairs held by the commit lines `ls`, in order.
pub open spec fn entries_of(ls: Seq<Seq<char>>) -> Seq<(Seq<char>, Seq<char>)>
    decreases ls.len(),
{
    if ls.len() == 0 {
        Seq::empty()
    } else {
        match parse_entry(ls.last()) {
            Some(e) => entries_of(ls.drop_last()).push(e),
            None => entries_of(ls.drop_last()),
        }
    }
}

/// The record that the text of a record file holds, if any: the first line
/// names the kind; a changelog record holds its version on the second line, a
/// commit record one pair on each later line.
pub open spec fn parse(t: Seq<char>) -> Option<RecordModel> {
    let ls = lines_of(t);
    if ls.len() == 0 {
        None
    } else if ls[0] == "changelog"@ {
        if ls.len() >= 2 {
            Some(RecordModel::Changelog(ls[1]))
        } else {
            None
        }
    } else if ls[0] == "commit"@ {
        Some(RecordModel::Commit(entries_of(ls.drop_first())))
    } else {
        None
    }
}

pub open spec fn opt_view(r: Option<BuildRecord>) -> Option<RecordModel> {
    match r {
        Some(b) => Some(b@),
        None => None,
    }
}

fn parse_entry_line(l: &String) -> (r: Option<(String, String)>)
    ensures
        match r {
            Some(e) => parse_entry(l@) == Some(pair_view(e)),
            None => parse_entry(l@) is None,
        },
{
    let s = l.as_str();
    let n = s.unicode_len();
    let k = find(s, ' ');
    if k < n {
        let branch = s.substring_char(0, k).to_owned();
        let commit = s.substring_char(k + 1, n).to_owned();
        proof {
            assert(branch@ =~= l@.take(k as int));
            assert(commit@ =~= l@.skip(k + 1));
        }
        Some((branch, commit))
    } else {
        None
    }
}

impl BuildRecord {
    /// Reads the text of a record file.
    pub fn parse(text: &str) -> (r: Option<BuildRecord>)
        ensures
            opt_view(r) == parse(text@),
    {
        let lines = split_lines(text);
        let ghost ls = lines.deep_view();
        if lines.len() == 0 {
            return None;
        }
        proof {
            assert(ls[0] == lines[0]@);
        }
        if lines[0] == String::from_str("changelog") {
            if lines.len() >= 2 {
                proof {
                    assert(ls[1] == lines[1]@);
                }
                Some(BuildRecord::Changelog { version: lines[1].clone() })
            } else {
                None
            }
        } else if lines[0] == String::from_str("commit") {
            let mut entries: Vec<(String, String)> = Vec::new();
            let mut i: usize = 1;
            proof {
                assert(ls.drop_first().take(0) =~= Seq::<Seq<char>>::empty());
            }
            while i < lines.len()
                invariant
                    ls == lines.deep_view(),
                    1 <= i <= lines.len(),
                    entries@.map_values(|e: (String, String)| pair_view(e))
                        == entries_of(ls.drop_first().take(i - 1)),
                decreases lines.len() - i,
            {
                let ghost before = entries@.map_values(|e: (String, String)| pair_view(e));
                let e = parse_entry_line(&lines[i]);
                proof {
                    let t = ls.drop_first().take(i as int);
                    assert(t.drop_last() =~= ls.drop_first().take(i - 1));
                    assert(t.last() == lines[i as int]@);
                }
                match e {
                    Some(p) => {
                        entries.push(p);
                        proof {
                            assert(entries@.map_values(|e: (String, String)| pair_view(e))
                                =~= before.push(pair_view(p)));
                        }
                    },
                    None => {},
                }
                i = i + 1;
            }
            proof {
                assert(ls.drop_first().take(lines.len() - 1) =~= ls.drop_first());
            }
            Some(BuildRecord::Commit { entries })
        } else {
            None
        }
    }

    /// The text of the record file.
    pub fn render(&self) -> (r: String)
        ensures
            r@ == render(self@),
    {
        match self {
            BuildRecord::Changelog { version } => {
                String::from_str("changelog\n").concat(version.as_str())
            },
            BuildRecord::Commit { entries } => {
                let mut out = String::from_str("commit");
                let mut i: usize = 0;
                let ghost es = entries@.map_values(|e: (String, String)| pair_view(e));
                proof {
                    assert(es.take(0) =~= Seq::<(Seq<char>, Seq<char>)>::empty());
                    assert(out@ =~= "commit"@ + entry_lines(es.take(0)));
                }
                while i < entries.len()
                    invariant
                        es == entries@.map_values(|e: (String, String)| pair_view(e)),
                        i <= entries.len(),
                        out@ == "commit"@ + entry_lines(es.take(i as int)),
                    decreases entries.len() - i,
                {
                    proof {
                        let t = es.take(i + 1);
                        assert(t.drop_last() =~= es.take(i as int));
                        assert(t.last() == pair_view(entries[i as int]));
                    }
                    out.append("\n");
                    out.append(entries[i].0.as_str());
                    out.append(" ");
                    out.append(entries[i].1.as_str());
                    i = i + 1;
                }
                proof {
                    assert(es.take(entries.len() as int) =~= es);
                }
                out
            },
        }
    }
}

/// Every line of `s`, the one after the last line feed included.
pub open spec fn all_lines(s: Seq<char>) -> Seq<Seq<char>> {
    split_prefix(s).0.push(split_prefix(s).1)
}

/// The lines that stand for the pairs `es`.
pub open spec fn lines_for(es: Seq<(Seq<char>, Seq<char>)>) -> Seq<Seq<char>>
    decreases es.len(),
{
    if es.len() == 0 {
        Seq::empty()
    } else {
        lines_for(es.drop_last()).push(entry_line(es.last()))
    }
}

/// A record that its file can hold: a changelog version is a non-empty line;
/// a branch holds no space and no line feed, a commit no line feed.
pub open spec fn well_formed(m: RecordModel) -> bool {
    match m {
        RecordModel::Changelog(v) => v.len() > 0 && !v.contains('\n'),
        RecordModel::Commit(es) => entries_ok(es),
    }
}

/// Pairs that commit lines can hold.
pub open spec fn entries_ok(es: Seq<(Seq<char>, Seq<char>)>) -> bool {
    forall|i: int| 0 <= i < es.len() ==> entry_ok(#[trigger] es[i])
}

/// A pair that a commit line can hold.
pub open spec fn entry_ok(e: (Seq<char>, Seq<char>)) -> bool {
    &&& !e.0.contains(' ')
    &&& !e.0.contains('\n')
    &&& !e.1.contains('\n')
}

proof fn lemma_split_single_line(x: Seq<char>)
    requires
        !x.contains('\n'),
    ensures
        split_prefix(x) == (Seq::<Seq<char>>::empty(), x),
    decreases x.len(),
{
    if x.len() > 0 {
        assert(x[x.len() - 1] == x.last());
        assert(!x.drop_last().contains('\n')) by {
            if x.drop_last().contains('\n') {
                let k = choose|k: int| 0 <= k < x.drop_last().len() && x.drop_last()[k] == '\n';
                assert(x[k] == '\n');
            }
        }
        lemma_split_single_line(x.drop_last());
        assert(x.drop_last().push(x.last()) =~= x);
    }
}

proof fn lemma_split_new_line(p: Seq<char>, x: Seq<char>)
    requires
        !x.contains('\n'),
    ensures
        split_prefix(p + "\n"@ + x) == (all_lines(p), x),
    decreases x.len(),
{
    reveal_strlit("\n");
    let t = p + "\n"@ + x;
    if x.len() == 0 {
        assert(t.drop_last() =~= p);
        assert(t.last() == '\n');
    } else {
        assert(x[x.len() - 1] == x.last());
        assert(!x.drop_last().contains('\n')) by {
            if x.drop_last().contains('\n') {
                let k = choose|k: int| 0 <= k < x.drop_last().len() && x.drop_last()[k] == '\n';
                assert(x[k] == '\n');
            }
        }
        lemma_split_new_line(p, x.drop_last());
        assert(t.drop_last() =~= p + "\n"@ + x.drop_last());
        assert(t.last() == x.last());
        assert(x.drop_last().push(x.last()) =~= x);
    }
}

proof fn lemma_no_newline_in_entry(e: (Seq<char>, Seq<char>))
    requires
        !e.0.contains('\n'),
        !e.1.contains('\n'),
    ensures
        !entry_line(e).contains('\n'),
        entry_line(e).len() > 0,
{
    reveal_strlit(" ");
    let l = entry_line(e);
    assert(l =~= e.0 + seq![' '] + e.1);
    if l.contains('\n') {
        let k = choose|k: int| 0 <= k < l.len() && l[k] == '\n';
        if k < e.0.len() {
            assert(e.0[k] == '\n');
        } else if k > e.0.len() {
            assert(e.1[k - e.0.len() - 1] == '\n');
        }
    }
}

proof fn lemma_commit_lines(es: Seq<(Seq<char>, Seq<char>)>)
    requires
        entries_ok(es),
    ensures
        all_lines("commit"@ + entry_lines(es)) == seq!["commit"@] + lines_for(es),
    decreases es.len(),
{
    reveal_strlit("commit");
    if es.len() == 0 {
        assert("commit"@ + entry_lines(es) =~= "commit"@);
        lemma_split_single_line("commit"@);
        assert(seq!["commit"@] + lines_for(es) =~= seq!["commit"@]);
    } else {
        let prev = es.drop_last();
        assert forall|i: int| 0 <= i < prev.len() implies entry_ok(#[trigger] prev[i]) by {
            assert(prev[i] == es[i]);
            assert(entry_ok(es[i]));
        }
        assert(entry_ok(es[es.len() - 1]));
        lemma_commit_lines(prev);
        assert(es[es.len() - 1] == es.last());
        lemma_no_newline_in_entry(es.last());
        let p = "commit"@ + entry_lines(prev);
        assert("commit"@ + entry_lines(es) =~= p + "\n"@ + entry_line(es.last()));
        lemma_split_new_line(p, entry_line(es.last()));
        assert(seq!["commit"@] + lines_for(es) =~= (seq!["commit"@] + lines_for(prev)).push(entry_line(es.last())));
    }
}

proof fn lemma_find_space(b: Seq<char>, c: Seq<char>, k: int)
    requires
        !b.contains(' '),
        0 <= k <= b.len(),
    ensures
        find_char(entry_line((b, c)), ' ', k) == b.len(),
    decreases b.len() - k,
{
    reveal_strlit(" ");
    let l = entry_line((b, c));
    assert(l =~= b + seq![' '] + c);
    if k < b.len() {
        assert(l[k] == b[k]);
        lemma_find_space(b, c, k + 1);
    } else {
        assert(l[k] == ' ');
    }
}

proof fn lemma_entries_back(es: Seq<(Seq<char>, Seq<char>)>)
    requires
        entries_ok(es),
    ensures
        entries_of(lines_for(es)) == es,
    decreases es.len(),
{
    reveal_strlit(" ");
    if es.len() == 0 {
        assert(lines_for(es) =~= Seq::<Seq<char>>::empty());
    } else {
        let prev = es.drop_last();
        assert forall|i: int| 0 <= i < prev.len() implies entry_ok(#[trigger] prev[i]) by {
            assert(prev[i] == es[i]);
            assert(entry_ok(es[i]));
        }
        assert(entry_ok(es[es.len() - 1]));
        lemma_entries_back(prev);
        let e = es.last();
        assert(es[es.len() - 1] == e);
        lemma_find_space(e.0, e.1, 0);
        let l = entry_line(e);
        assert(l =~= e.0 + seq![' '] + e.1);
        assert(l.take(e.0.len() as int) =~= e.0);
        assert(l.skip(e.0.len() as int + 1) =~= e.1);
        assert(lines_for(es).drop_last() =~= lines_for(prev));
        assert(prev.push(e) =~= es);
    }
}

/// Reading back the text of a record gives the record itself.
pub proof fn lemma_parse_render(m: RecordModel)
    requires
        well_formed(m),
    ensures
        parse(render(m)) == Some(m),
{
    reveal_strlit("changelog");
    reveal_strlit("commit");
    reveal_strlit("changelog\n");
    reveal_strlit("\n");
    match m {
        RecordModel::Changelog(v) => {
            lemma_split_single_line("changelog"@);
            assert("changelog\n"@ + v =~= "changelog"@ + "\n"@ + v);
            lemma_split_new_line("changelog"@, v);
            let ls = lines_of(render(m));
            assert(ls =~= seq!["changelog"@, v]);
        },
        RecordModel::Commit(es) => {
            lemma_commit_lines(es);
            let t = render(m);
            let ls = lines_of(t);
            if es.len() == 0 {
                assert(t =~= "commit"@);
                lemma_split_single_line("commit"@);
            } else {
                assert(es[es.len() - 1] == es.last());
                lemma_no_newline_in_entry(es.last());
                lemma_split_new_line("commit"@ + entry_lines(es.drop_last()), entry_line(es.last()));
                assert(t =~= "commit"@ + entry_lines(es.drop_last()) + "\n"@ + entry_line(es.last()));
            }
            assert(ls == seq!["commit"@] + lines_for(es));
            assert(ls[0] == "commit"@);
            assert(ls[0] != "changelog"@) by {
                assert(ls[0].len() != "changelog"@.len());
            }
            assert(ls.drop_first() =~= lines_for(es));
            lemma_entries_back(es);
        },
    }
}

} // verus!
