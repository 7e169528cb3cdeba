//! The configured peer list: one address per line, kept sorted without
//! repeats.
use vstd::prelude::*;
use vstd::string::StrSliceExecFns;
use crate::text::{segments, split_lines, trim, trim_text};

verus! {

/// Character-by-character order of texts, a proper prefix first: the order of
/// `String` comparison.
pub open spec fn text_lt(a: Seq<char>, b: Seq<char>) -> bool
    decreases a.len(),
{
    if a.len() == 0 {
        b.len() > 0
    } else if b.len() == 0 {
        false
    } else if a[0] != b[0] {
        a[0] < b[0]
    } else {
        text_lt(a.drop_first(), b.drop_first())
    }
}

pub proof fn lemma_text_lt_irreflexive(a: Seq<char>)
    ensures
        !text_lt(a, a),
    decreases a.len(),
{
    if a.len() > 0 {
        lemma_text_lt_irreflexive(a.drop_first());
    }
}

pub proof fn lemma_text_lt_transitive(a: Seq<char>, b: Seq<char>, c: Seq<char>)
    requires
        text_lt(a, b),
        text_lt(b, c),
    ensures
        text_lt(a, c),
    decreases a.len(),
{
    if a.len() > 0 && b.len() > 0 && c.len() > 0 && a[0] == b[0] && b[0] == c[0] {
        lemma_text_lt_transitive(a.drop_first(), b.drop_first(), c.drop_first());
    }
}

pub proof fn lemma_text_lt_total(a: Seq<char>, b: Seq<char>)
    requires
        a != b,
    ensures
        text_lt(a, b) || text_lt(b, a),
    decreases a.len(),
{
    if a.len() == 0 && b.len() == 0 {
        assert(a =~= b);
    }
    if a.len() > 0 && b.len() > 0 && a[0] == b[0] {
        if a.drop_first() == b.drop_first() {
            assert(a =~= seq![a[0]] + a.drop_first());
            assert(b =~= seq![b[0]] + b.drop_first());
        }
        lemma_text_lt_total(a.drop_first(), b.drop_first());
    }
}

/// Whether `a` sorts before `b`.
pub fn text_less(a: &str, b: &str) -> (r: bool)
    ensures
        r == text_lt(a@, b@),
{
    let n = a.unicode_len();
    let m = b.unicode_len();
    let mut i: usize = 0;
    assert(a@.skip(0) =~= a@);
    assert(b@.skip(0) =~= b@);
    while i < n && i < m
        invariant
            n == a@.len(),
            m == b@.len(),
            i <= n,
            i <= m,
            text_lt(a@, b@) == text_lt(a@.skip(i as int), b@.skip(i as int)),
        decreases n - i,
    {
        let x = a.get_char(i);
        let y = b.get_char(i);
        assert(a@.skip(i as int)[0] == x);
        assert(b@.skip(i as int)[0] == y);
        if x != y {
            return x < y;
        }
        assert(a@.skip(i as int).drop_first() =~= a@.skip(i + 1));
        assert(b@.skip(i as int).drop_first() =~= b@.skip(i + 1));
        i += 1;
    }
    i < m
}

/// Texts as character sequences.
pub open spec fn texts(v: Seq<String>) -> Seq<Seq<char>> {
    v.map_values(|s: String| s@)
}

/// Strictly increasing, so without repeats.
pub open spec fn strictly_sorted(s: Seq<Seq<char>>) -> bool {
    forall|i: int, j: int| 0 <= i < j < s.len() ==> text_lt(#[trigger] s[i], #[trigger] s[j])
}

/// Adds `peer` to a sorted peer list, unless it is there already.
pub fn insert_peer(peers: &mut Vec<String>, peer: &str)
    requires
        strictly_sorted(texts(old(peers)@)),
    ensures
        strictly_sorted(texts(final(peers)@)),
        texts(final(peers)@).to_set() == texts(old(peers)@).to_set().insert(peer@),
{
    let ghost before = texts(peers@);
    let mut i: usize = 0;
    while i < peers.len() && text_less(peers[i].as_str(), peer)
        invariant
            i <= peers@.len(),
            before == texts(peers@),
            forall|k: int| 0 <= k < i ==> text_lt(#[trigger] before[k], peer@),
        decreases peers@.len() - i,
    {
        i += 1;
    }
    if i < peers.len() && !text_less(peer, peers[i].as_str()) {
        proof {
            if before[i as int] != peer@ {
                lemma_text_lt_total(before[i as int], peer@);
            }
            assert(before[i as int] == peer@);
            assert(before.to_set().insert(peer@) =~= before.to_set());
        }
        return;
    }
    proof {
        if i < peers@.len() {
            assert(text_lt(peer@, before[i as int]));
        }
    }
    peers.insert(i, String::from_str(peer));
    proof {
        let after = texts(peers@);
        assert(after =~= before.insert(i as int, peer@));
        assert forall|a: int, b: int| 0 <= a < b < after.len() implies text_lt(#[trigger] after[a], #[trigger] after[b]) by {
            if b < i {
            } else if b == i {
            } else if a < i {
                assert(after[b] == before[b - 1]);
                if b - 1 > i {
                    assert(text_lt(before[i as int], before[b - 1]));
                    lemma_text_lt_transitive(peer@, before[i as int], before[b - 1]);
                }
                assert(text_lt(peer@, after[b]));
                lemma_text_lt_transitive(after[a], peer@, after[b]);
            } else if a == i {
                assert(after[b] == before[b - 1]);
                if b - 1 > i {
                    assert(text_lt(before[i as int], before[b - 1]));
                    lemma_text_lt_transitive(peer@, before[i as int], before[b - 1]);
                }
            } else {
                assert(after[a] == before[a - 1] && after[b] == before[b - 1]);
            }
        }
        assert forall|x: Seq<char>| after.to_set().contains(x) <==> before.to_set().insert(peer@).contains(x) by {
            if after.to_set().contains(x) {
                let k = choose|k: int| 0 <= k < after.len() && after[k] == x;
                if k < i {
                    assert(before[k] == x);
                } else if k > i {
                    assert(before[k - 1] == x);
                }
            }
            if before.to_set().contains(x) {
                let k = choose|k: int| 0 <= k < before.len() && before[k] == x;
                if k < i {
                    assert(after[k] == x);
                } else {
                    assert(after[k + 1] == x);
                }
            }
            if x == peer@ {
                assert(after[i as int] == x);
            }
        }
        assert(after.to_set() =~= before.to_set().insert(peer@));
    }
}

/// The peer a line of the peer file names: the line without surrounding
/// whitespace, unless it is empty or a `#` comment.
pub open spec fn peer_of_line(line: Seq<char>) -> Option<Seq<char>> {
    let t = trim_text(line);
    if t.len() > 0 && t[0] != '#' {
        Some(t)
    } else {
        None
    }
}

/// The peers that lines before index `n` name.
pub open spec fn named_peers(lines: Seq<Seq<char>>, n: int) -> Set<Seq<char>>
    decreases n,
{
    if n <= 0 {
        Set::empty()
    } else {
        match peer_of_line(lines[n - 1]) {
            Some(p) => named_peers(lines, n - 1).insert(p),
            None => named_peers(lines, n - 1),
        }
    }
}

/// The peers a peer file names, sorted and without repeats.
pub fn parse_peers(text: &str) -> (r: Vec<String>)
    ensures
        strictly_sorted(texts(r@)),
        texts(r@).to_set() == named_peers(segments(text@), segments(text@).len() as int),
{
    let lines = split_lines(text);
    let ghost segs = segments(text@);
    let mut peers: Vec<String> = Vec::new();
    let mut i: usize = 0;
    assert(texts(peers@).to_set() =~= Set::<Seq<char>>::empty());
    while i < lines.len()
        invariant
            lines@.len() == segs.len(),
            forall|k: int| 0 <= k < lines@.len() ==> (#[trigger] lines@[k])@ == segs[k],
            segs == segments(text@),
            i <= lines@.len(),
            strictly_sorted(texts(peers@)),
            texts(peers@).to_set() == named_peers(segs, i as int),
        decreases lines@.len() - i,
    {
        let line = trim(lines[i]);
        assert(segs[i as int] == lines@[i as int]@);
        if line.unicode_len() > 0 && line.get_char(0) != '#' {
            insert_peer(&mut peers, line);
        }
        i += 1;
    }
    peers
}

/// The text of a peer file: a comment line, then one peer per line.
pub open spec fn peers_file_text(peers: Seq<Seq<char>>) -> Seq<char>
    decreases peers.len(),
{
    if peers.len() == 0 {
        "# dustchain local peers; use loopback addresses by default\n"@
    } else {
        peers_file_text(peers.drop_last()) + peers.last() + "\n"@
    }
}

/// Writes a peer file.
pub fn render_peers(peers: &Vec<String>) -> (s: String)
    ensures
        s@ == peers_file_text(texts(peers@)),
{
    let mut s = String::from_str("# dustchain local peers; use loopback addresses by default\n");
    let mut i: usize = 0;
    assert(texts(peers@).take(0) =~= Seq::<Seq<char>>::empty());
    while i < peers.len()
        invariant
            i <= peers@.len(),
            s@ == peers_file_text(texts(peers@).take(i as int)),
        decreases peers@.len() - i,
    {
        s.append(peers[i].as_str());
        s.append("\n");
        assert(texts(peers@).take(i + 1).drop_last() =~= texts(peers@).take(i as int));
        i += 1;
    }
    assert(texts(peers@).take(peers@.len() as int) =~= texts(peers@));
    s
}

} // verus!
