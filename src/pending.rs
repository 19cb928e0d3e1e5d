//! The pending set: the repositories left for `update`, kept in a file
//! between two runs as one path per line.
use vstd::prelude::*;
use vstd::string::*;
use crate::config::strs;

verus! {

/// The text of a pending set: each path followed by a newline.
pub open spec fn encoded(paths: Seq<Seq<char>>) -> Seq<char>
    decreases paths.len(),
{
    if paths.len() == 0 {
        seq![]
    } else {
        encoded(paths.drop_last()) + paths.last() + seq!['\n']
    }
}

/// The lines of `s` found by a scan at position `i`, the current line having
/// begun at `start`. A last line without a newline counts unless empty.
pub open spec fn lines_from(s: Seq<char>, i: int, start: int) -> Seq<Seq<char>>
    decreases s.len() - i,
{
    if i >= s.len() {
        if start < s.len() {
            seq![s.subrange(start, s.len() as int)]
        } else {
            seq![]
        }
    } else if s[i] == '\n' {
        seq![s.subrange(start, i)] + lines_from(s, i + 1, i + 1)
    } else {
        lines_from(s, i + 1, start)
    }
}

/// The paths that the text of a pending set lists.
pub open spec fn decoded(s: Seq<char>) -> Seq<Seq<char>> {
    lines_from(s, 0, 0)
}

pub open spec fn one_line(p: Seq<char>) -> bool {
    !p.contains('\n')
}

/// Every path fits on one line.
pub open spec fn all_one_line(paths: Seq<Seq<char>>) -> bool {
    forall|k: int| 0 <= k < paths.len() ==> one_line(#[trigger] paths[k])
}

/// Whether `s` holds a newline.
pub fn has_newline(s: &str) -> (r: bool)
    ensures
        r == !one_line(s@),
{
    let n = s.unicode_len();
    let mut i: usize = 0;
    while i < n
        invariant
            n == s@.len(),
            i <= n,
            forall|j: int| 0 <= j < i ==> s@[j] != '\n',
        decreases n - i,
    {
        if s.get_char(i) == '\n' {
            assert(s@.contains('\n')) by {
                assert(s@[i as int] == '\n');
            }
            return true;
        }
        i = i + 1;
    }
    false
}

/// The text of the pending set `paths`; `None` when a path holds a newline,
/// which the file could not keep apart from the next path.
pub fn encode_pending(paths: &Vec<String>) -> (r: Option<String>)
    ensures
        r is Some <==> all_one_line(strs(paths@)),
        r is Some ==> r->0@ == encoded(strs(paths@)),
{
    let mut k: usize = 0;
    while k < paths.len()
        invariant
            k <= paths@.len(),
            forall|j: int| 0 <= j < k ==> one_line(#[trigger] strs(paths@)[j]),
        decreases paths.len() - k,
    {
        if has_newline(paths[k].as_str()) {
            assert(!one_line(strs(paths@)[k as int]));
            return None;
        }
        k = k + 1;
    }
    let mut out = String::new();
    let mut i: usize = 0;
    proof {
        reveal_strlit("\n");
    }
    assert(strs(paths@).take(0) =~= seq![]);
    while i < paths.len()
        invariant
            i <= paths@.len(),
            out@ == encoded(strs(paths@).take(i as int)),
            "\n"@ == seq!['\n'],
        decreases paths.len() - i,
    {
        assert(strs(paths@).take(i + 1).drop_last() =~= strs(paths@).take(i as int));
        out.append(paths[i].as_str());
        out.append("\n");
        i = i + 1;
    }
    assert(strs(paths@).take(i as int) =~= strs(paths@));
    Some(out)
}

/// The paths listed by the text of a pending set.
pub fn decode_pending(text: &str) -> (r: Vec<String>)
    ensures
        strs(r@) == decoded(text@),
{
    let n = text.unicode_len();
    let mut out: Vec<String> = Vec::new();
    let mut start: usize = 0;
    let mut i: usize = 0;
    assert(strs(out@) =~= seq![]);
    while i < n
        invariant
            n == text@.len(),
            start <= i <= n,
            strs(out@) + lines_from(text@, i as int, start as int) == decoded(text@),
        decreases n - i,
    {
        if text.get_char(i) == '\n' {
            let ghost prev = strs(out@);
            out.push(text.substring_char(start, i).to_owned());
            assert(strs(out@) =~= prev.push(text@.subrange(start as int, i as int)));
            assert(prev + lines_from(text@, i as int, start as int) =~= strs(out@) + lines_from(
                text@,
                i + 1,
                i + 1,
            ));
            start = i + 1;
        }
        i = i + 1;
    }
    if start < n {
        let ghost prev = strs(out@);
        out.push(text.substring_char(start, n).to_owned());
        assert(strs(out@) =~= prev.push(text@.subrange(start as int, n as int)));
    }
    assert(strs(out@) =~= decoded(text@));
    out
}

proof fn lemma_encoded_front(paths: Seq<Seq<char>>)
    requires
        paths.len() > 0,
    ensures
        encoded(paths) == paths[0] + seq!['\n'] + encoded(paths.drop_first()),
    decreases paths.len(),
{
    if paths.len() > 1 {
        lemma_encoded_front(paths.drop_last());
        assert(paths.drop_last().drop_first() =~= paths.drop_first().drop_last());
        assert(paths.drop_first().last() == paths.last());
        assert(encoded(paths) =~= paths[0] + seq!['\n'] + encoded(paths.drop_first()));
    } else {
        assert(paths.drop_first() =~= seq![]);
        assert(paths.drop_last() =~= seq![]);
        assert(encoded(paths) =~= paths[0] + seq!['\n'] + encoded(paths.drop_first()));
    }
}

/// A scan inside a line without newlines reaches the newline that ends it.
proof fn lemma_scan_line(s: Seq<char>, i: int, start: int, j: int)
    requires
        0 <= start <= i <= j < s.len(),
        s[j] == '\n',
        forall|x: int| i <= x < j ==> s[x] != '\n',
    ensures
        lines_from(s, i, start) == seq![s.subrange(start, j)] + lines_from(s, j + 1, j + 1),
    decreases j - i,
{
    if i < j {
        lemma_scan_line(s, i + 1, start, j);
    }
}

proof fn lemma_decode_tail(prefix: Seq<char>, paths: Seq<Seq<char>>)
    requires
        forall|k: int| 0 <= k < paths.len() ==> one_line(#[trigger] paths[k]),
    ensures
        lines_from(prefix + encoded(paths), prefix.len() as int, prefix.len() as int) == paths,
    decreases paths.len(),
{
    let s = prefix + encoded(paths);
    let o = prefix.len() as int;
    if paths.len() == 0 {
        assert(s.len() == o);
        assert(paths =~= seq![]);
    } else {
        lemma_encoded_front(paths);
        let p = paths[0];
        let rest = paths.drop_first();
        let j = o + p.len();
        assert(s =~= prefix + p + seq!['\n'] + encoded(rest));
        assert(s[j] == '\n');
        assert forall|x: int| o <= x < j implies s[x] != '\n' by {
            assert(s[x] == p[x - o]);
            assert(one_line(paths[0]));
        }
        lemma_scan_line(s, o, o, j);
        assert(s.subrange(o, j) =~= p);
        assert forall|k: int| 0 <= k < rest.len() implies one_line(#[trigger] rest[k]) by {
            assert(rest[k] == paths[k + 1]);
        }
        lemma_decode_tail(prefix + p + seq!['\n'], rest);
        assert((prefix + p + seq!['\n']).len() == j + 1);
        assert(seq![p] + rest =~= paths);
    }
}

/// Reading back the text of a pending set gives its paths, when no path
/// holds a newline.
pub proof fn lemma_pending_round_trip(paths: Seq<Seq<char>>)
    requires
        all_one_line(paths),
    ensures
        decoded(encoded(paths)) == paths,
{
    lemma_decode_tail(seq![], paths);
    assert(seq![] + encoded(paths) =~= encoded(paths));
}

} // verus!
