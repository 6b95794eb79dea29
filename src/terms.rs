use vstd::prelude::*;

verus! {

/// Characters that belong to words: ASCII letters and digits, and every
/// character beyond ASCII.
pub open spec fn is_word_char(c: char) -> bool {
    ('a' <= c && c <= 'z') || ('A' <= c && c <= 'Z') || ('0' <= c && c <= '9') || (c as u32) >= 128
}

/// A character with ASCII capitals made small.
pub open spec fn lower_char(c: char) -> char {
    if 'A' <= c && c <= 'Z' {
        ((c as u8) + 32) as u8 as char
    } else {
        c
    }
}

/// A text with ASCII capitals made small.
pub open spec fn lower(s: Seq<char>) -> Seq<char> {
    s.map_values(|c: char| lower_char(c))
}

/// Words found so far in a text, and the word being read.
pub open spec fn scan(cs: Seq<char>) -> (Seq<Seq<char>>, Seq<char>)
    decreases cs.len(),
{
    if cs.len() == 0 {
        (Seq::empty(), Seq::empty())
    } else {
        let (ws, cur) = scan(cs.drop_last());
        let c = cs.last();
        if is_word_char(c) {
            (ws, cur.push(lower_char(c)))
        } else if cur.len() > 0 {
            (ws.push(cur), Seq::empty())
        } else {
            (ws, Seq::empty())
        }
    }
}

/// The words of a text: maximal runs of word characters, in lower case.
pub open spec fn words(cs: Seq<char>) -> Seq<Seq<char>> {
    let (ws, cur) = scan(cs);
    if cur.len() > 0 {
        ws.push(cur)
    } else {
        ws
    }
}

/// Makes ASCII capitals small.
pub fn lower_chars(cs: &Vec<char>) -> (r: Vec<char>)
    ensures
        r@ == lower(cs@),
{
    let mut out: Vec<char> = Vec::new();
    let mut i: usize = 0;
    while i < cs.len()
        invariant
            i <= cs@.len(),
            out@ == lower(cs@.subrange(0, i as int)),
        decreases cs@.len() - i,
    {
        let c = cs[i];
        let d = if 'A' <= c && c <= 'Z' {
            ((c as u8) + 32) as char
        } else {
            c
        };
        out.push(d);
        i = i + 1;
        assert(out@ =~= lower(cs@.subrange(0, i as int)));
    }
    assert(cs@.subrange(0, cs@.len() as int) =~= cs@);
    out
}

/// The views of a list of words.
pub open spec fn word_views(v: Seq<Vec<char>>) -> Seq<Seq<char>> {
    v.map_values(|w: Vec<char>| w@)
}

/// Splits a text into its words.
pub fn split_words(cs: &Vec<char>) -> (r: Vec<Vec<char>>)
    ensures
        word_views(r@) == words(cs@),
{
    let mut ws: Vec<Vec<char>> = Vec::new();
    let mut cur: Vec<char> = Vec::new();
    let mut i: usize = 0;
    while i < cs.len()
        invariant
            i <= cs@.len(),
            (word_views(ws@), cur@) == scan(cs@.subrange(0, i as int)),
        decreases cs@.len() - i,
    {
        let c = cs[i];
        assert(cs@.subrange(0, i + 1).drop_last() =~= cs@.subrange(0, i as int));
        if ('a' <= c && c <= 'z') || ('A' <= c && c <= 'Z') || ('0' <= c && c <= '9') || (c as u32)
            >= 128 {
            let d = if 'A' <= c && c <= 'Z' {
                ((c as u8) + 32) as char
            } else {
                c
            };
            cur.push(d);
        } else if cur.len() > 0 {
            let ghost before = word_views(ws@);
            let w = cur;
            cur = Vec::new();
            ws.push(w);
            assert(word_views(ws@) =~= before.push(w@));
        }
        i = i + 1;
    }
    assert(cs@.subrange(0, cs@.len() as int) =~= cs@);
    if cur.len() > 0 {
        let ghost before = word_views(ws@);
        let ghost cv = cur@;
        ws.push(cur);
        assert(word_views(ws@) =~= before.push(cv));
    }
    ws
}

/// The edit distance between two words: the fewest insertions, deletions and
/// substitutions of one character that turn one into the other.
pub open spec fn edit_distance(a: Seq<char>, b: Seq<char>) -> nat
    decreases a.len() + b.len(),
{
    if a.len() == 0 {
        b.len()
    } else if b.len() == 0 {
        a.len()
    } else {
        let del = edit_distance(a.drop_last(), b) + 1;
        let ins = edit_distance(a, b.drop_last()) + 1;
        let sub = edit_distance(a.drop_last(), b.drop_last()) + if a.last() == b.last() {
            0nat
        } else {
            1nat
        };
        if del <= ins && del <= sub {
            del
        } else if ins <= sub {
            ins
        } else {
            sub
        }
    }
}

proof fn lemma_edit_distance_bound(a: Seq<char>, b: Seq<char>)
    ensures
        edit_distance(a, b) <= if a.len() >= b.len() {
            a.len()
        } else {
            b.len()
        },
    decreases a.len() + b.len(),
{
    if a.len() > 0 && b.len() > 0 {
        lemma_edit_distance_bound(a.drop_last(), b.drop_last());
    }
}

/// The edit distance, by dynamic programming over rows.
pub fn distance(a: &Vec<char>, b: &Vec<char>) -> (r: usize)
    requires
        a@.len() < usize::MAX,
        b@.len() < usize::MAX,
    ensures
        r as int == edit_distance(a@, b@),
{
    let n = a.len();
    let m = b.len();
    let mut prev: Vec<usize> = Vec::new();
    let mut j: usize = 0;
    while j <= m
        invariant
            j <= m + 1,
            m == b@.len(),
            m < usize::MAX,
            prev@.len() == j,
            forall|k: int| 0 <= k < j ==> prev@[k] as int == edit_distance(a@.subrange(0, 0), b@.subrange(0, k)),
        decreases m + 1 - j,
    {
        prev.push(j);
        j = j + 1;
    }
    let mut i: usize = 1;
    while i <= n
        invariant
            1 <= i <= n + 1,
            n == a@.len(),
            m == b@.len(),
            n < usize::MAX,
            m < usize::MAX,
            prev@.len() == m + 1,
            forall|k: int| 0 <= k <= m ==> prev@[k] as int == edit_distance(a@.subrange(0, i - 1), b@.subrange(0, k)),
        decreases n + 1 - i,
    {
        let mut cur: Vec<usize> = Vec::new();
        cur.push(i);
        proof {
            assert(b@.subrange(0, 0).len() == 0);
        }
        let mut k: usize = 1;
        while k <= m
            invariant
                1 <= i <= n,
                1 <= k <= m + 1,
                n == a@.len(),
                m == b@.len(),
                n < usize::MAX,
                m < usize::MAX,
                prev@.len() == m + 1,
                cur@.len() == k,
                forall|x: int| 0 <= x <= m ==> prev@[x] as int == edit_distance(a@.subrange(0, i - 1), b@.subrange(0, x)),
                forall|x: int| 0 <= x < k ==> cur@[x] as int == edit_distance(a@.subrange(0, i as int), b@.subrange(0, x)),
            decreases m + 1 - k,
        {
            let ghost aa = a@.subrange(0, i as int);
            let ghost bb = b@.subrange(0, k as int);
            proof {
                assert(aa.drop_last() =~= a@.subrange(0, i - 1));
                assert(bb.drop_last() =~= b@.subrange(0, k - 1));
                lemma_edit_distance_bound(aa, bb);
                lemma_edit_distance_bound(a@.subrange(0, i - 1), bb);
                lemma_edit_distance_bound(aa, b@.subrange(0, k - 1));
                lemma_edit_distance_bound(a@.subrange(0, i - 1), b@.subrange(0, k - 1));
            }
            let del = prev[k] + 1;
            let ins = cur[k - 1] + 1;
            let cost: usize = if a[i - 1] == b[k - 1] {
                0
            } else {
                1
            };
            let sub = prev[k - 1] + cost;
            let best = if del <= ins && del <= sub {
                del
            } else if ins <= sub {
                ins
            } else {
                sub
            };
            cur.push(best);
            k = k + 1;
        }
        prev = cur;
        i = i + 1;
    }
    assert(a@.subrange(0, n as int) =~= a@);
    assert(b@.subrange(0, m as int) =~= b@);
    prev[m]
}

} // verus!
