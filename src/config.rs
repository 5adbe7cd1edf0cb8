//! `key=value` lines of a startup configuration file.
use vstd::prelude::*;
use vstd::string::StrSliceExecFns;

verus! {

/// The first index at or after `i` that holds `c`, or the length.
pub open spec fn find(s: Seq<char>, c: char, i: int) -> int
    decreases s.len() - i,
{
    if 0 <= i < s.len() {
        if s[i] == c {
            i
        } else {
            find(s, c, i + 1)
        }
    } else {
        s.len() as int
    }
}

/// A line without the `'\r'` of a `"\r\n"` ending.
pub open spec fn strip_cr(raw: Seq<char>, ended: bool) -> Seq<char> {
    if ended && raw.len() > 0 && raw.last() == '\r' {
        raw.drop_last()
    } else {
        raw
    }
}

/// The key before the first `=` and the value up to the next `=`, when
/// both are non-empty.
pub open spec fn keyval_of(line: Seq<char>) -> Option<(Seq<char>, Seq<char>)> {
    let e = find(line, '=', 0);
    let v = find(line, '=', e + 1);
    if e < line.len() && e > 0 && v > e + 1 {
        Some((line.take(e), line.subrange(e + 1, v)))
    } else {
        None
    }
}

pub open spec fn opt_pair(p: Option<(Seq<char>, Seq<char>)>) -> Seq<(Seq<char>, Seq<char>)> {
    match p {
        Some(x) => seq![x],
        None => Seq::empty(),
    }
}

/// The pairs of every line of `s`, in order. Lines end at `'\n'`.
pub open spec fn keyvals_of(s: Seq<char>) -> Seq<(Seq<char>, Seq<char>)>
    decreases s.len(),
{
    if s.len() == 0 {
        Seq::empty()
    } else {
        let e = find(s, '\n', 0);
        let here = opt_pair(keyval_of(strip_cr(s.take(e), e < s.len())));
        if 0 <= e < s.len() {
            here + keyvals_of(s.skip(e + 1))
        } else {
            here
        }
    }
}

proof fn lemma_find_bounds(s: Seq<char>, c: char, i: int)
    requires
        0 <= i,
    ensures
        find(s, c, i) <= s.len(),
        i <= s.len() ==> i <= find(s, c, i),
        find(s, c, i) < s.len() ==> s[find(s, c, i)] == c,
        forall|k: int| i <= k < find(s, c, i) ==> s[k] != c,
    decreases s.len() - i,
{
    if 0 <= i < s.len() && s[i] != c {
        lemma_find_bounds(s, c, i + 1);
    }
}

proof fn lemma_find_shift(s: Seq<char>, c: char, a: int, i: int)
    requires
        0 <= a <= s.len(),
        0 <= i,
    ensures
        find(s.skip(a), c, i) == find(s, c, a + i) - a,
    decreases s.len() - (a + i),
{
    if a + i < s.len() && s[a + i] != c {
        lemma_find_shift(s, c, a, i + 1);
    }
}

proof fn lemma_find_sub(s: Seq<char>, c: char, a: int, b: int, i: int)
    requires
        0 <= a <= b <= s.len(),
        0 <= i,
    ensures
        find(s.subrange(a, b), c, i) == if find(s, c, a + i) < b { find(s, c, a + i) - a } else { b - a },
    decreases s.len() - (a + i),
{
    lemma_find_bounds(s, c, a + i);
    if a + i < b && s[a + i] != c {
        lemma_find_sub(s, c, a, b, i + 1);
    }
}

/// The first index in `from..to` of `text` that holds `c`, or `to`.
fn find_char(text: &str, n: usize, c: char, from: usize, to: usize) -> (r: usize)
    requires
        n == text@.len(),
        from <= to <= n,
    ensures
        r == (if find(text@, c, from as int) < to { find(text@, c, from as int) } else { to as int }),
{
    proof {
        lemma_find_bounds(text@, c, from as int);
    }
    let mut i = from;
    while i < to
        invariant
            from <= i <= to <= n,
            n == text@.len(),
            find(text@, c, from as int) == find(text@, c, i as int),
        decreases to - i,
    {
        if text.get_char(i) == c {
            return i;
        }
        i = i + 1;
    }
    proof {
        lemma_find_bounds(text@, c, i as int);
    }
    to
}

/// The pair of the line `text[i..end]`, if it has one.
fn line_pair(text: &str, n: usize, i: usize, end: usize) -> (r: Option<(String, String)>)
    requires
        n == text@.len(),
        i <= end <= n,
    ensures
        opt_pair(keyval_of(text@.subrange(i as int, end as int))) == match r {
            Some(p) => seq![(p.0@, p.1@)],
            None => Seq::<(Seq<char>, Seq<char>)>::empty(),
        },
{
    let ghost s = text@;
    let ghost line = s.subrange(i as int, end as int);
    let eq = find_char(text, n, '=', i, end);
    let v = if eq < end {
        find_char(text, n, '=', eq + 1, end)
    } else {
        end
    };
    proof {
        lemma_find_bounds(s, '=', i as int);
        lemma_find_sub(s, '=', i as int, end as int, 0);
        if eq < end {
            lemma_find_bounds(s, '=', eq + 1);
            lemma_find_sub(s, '=', i as int, end as int, (eq + 1 - i) as int);
        }
    }
    if eq < end && eq > i && v > eq + 1 {
        let key = text.substring_char(i, eq).to_owned();
        let val = text.substring_char(eq + 1, v).to_owned();
        proof {
            assert(line.take(eq - i) =~= s.subrange(i as int, eq as int));
            assert(line.subrange(eq - i + 1, v - i) =~= s.subrange(eq + 1, v as int));
        }
        Some((key, val))
    } else {
        None
    }
}

/// The `key=value` pairs of a configuration buffer, line by line.
pub fn keyvals(kvbuf: &str) -> (r: Vec<(String, String)>)
    ensures
        r@.map_values(|p: (String, String)| (p.0@, p.1@)) == keyvals_of(kvbuf@),
{
    let ghost s = kvbuf@;
    let n = kvbuf.unicode_len();
    let mut r: Vec<(String, String)> = Vec::new();
    let mut i: usize = 0;
    proof {
        assert(s.skip(0) =~= s);
        assert(r@.map_values(|p: (String, String)| (p.0@, p.1@)) + keyvals_of(s) =~= keyvals_of(s));
    }
    while i < n
        invariant
            n == s.len(),
            s == kvbuf@,
            i <= n,
            r@.map_values(|p: (String, String)| (p.0@, p.1@)) + keyvals_of(s.skip(i as int))
                == keyvals_of(s),
        decreases n - i,
    {
        let ghost t = s.skip(i as int);
        let e = find_char(kvbuf, n, '\n', i, n);
        proof {
            lemma_find_bounds(s, '\n', i as int);
            lemma_find_shift(s, '\n', i as int, 0);
        }
        let ended = e < n;
        let mut end = e;
        if ended && end > i && kvbuf.get_char(end - 1) == '\r' {
            end = end - 1;
        }
        let ghost line = strip_cr(t.take(e - i), ended);
        proof {
            assert(line =~= s.subrange(i as int, end as int));
        }
        let ghost pre = r@.map_values(|p: (String, String)| (p.0@, p.1@));
        match line_pair(kvbuf, n, i, end) {
            Some(pair) => {
                r.push(pair);
            },
            None => {},
        }
        proof {
            assert(r@.map_values(|p: (String, String)| (p.0@, p.1@)) =~= pre + opt_pair(
                keyval_of(line),
            ));
        }
        proof {
            if ended {
                assert(t.skip(e - i + 1) =~= s.skip(e + 1));
                assert(keyvals_of(t) == opt_pair(keyval_of(line)) + keyvals_of(t.skip(e - i + 1)));
            } else {
                assert(s.skip(n as int) =~= Seq::<char>::empty());
                assert(keyvals_of(t) == opt_pair(keyval_of(line)));
            }
        }
        i = if ended { e + 1 } else { n };
        proof {
            let now = r@.map_values(|p: (String, String)| (p.0@, p.1@));
            if !ended {
                assert(keyvals_of(s.skip(i as int)) == Seq::<(Seq<char>, Seq<char>)>::empty());
            }
            assert(now + keyvals_of(s.skip(i as int)) =~= pre + (opt_pair(keyval_of(line))
                + keyvals_of(s.skip(i as int))));
        }
    }
    proof {
        assert(s.skip(i as int).len() == 0);
        let done = r@.map_values(|p: (String, String)| (p.0@, p.1@));
        assert(done + keyvals_of(s.skip(i as int)) =~= done);
    }
    r
}

/// Whether a configuration buffer holds at least one `key=value` line.
pub fn read_config_keyvals(kvbuf: &str) -> (r: bool)
    ensures
        r == (keyvals_of(kvbuf@).len() > 0),
{
    let pairs = keyvals(kvbuf);
    pairs.len() > 0
}

} // verus!
