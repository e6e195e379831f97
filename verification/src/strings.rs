//! Verified string utilities: searching, splitting, joining and decimal
//! formatting over `Seq<char>` views.

use vstd::prelude::*;

verus! {

/// How many times `c` occurs in `s`.
pub open spec fn char_count(s: Seq<char>, c: char) -> nat
    decreases s.len(),
{
    if s.len() == 0 {
        0
    } else if s.last() == c {
        char_count(s.drop_last(), c) + 1
    } else {
        char_count(s.drop_last(), c)
    }
}

/// Whether `c` occurs in `s`.
pub open spec fn has_char(s: Seq<char>, c: char) -> bool {
    exists|i: int| 0 <= i < s.len() && s[i] == c
}

/// The largest index at which `c` occurs in `s`, or -1 if it does not occur.
pub open spec fn last_index_of(s: Seq<char>, c: char) -> int
    decreases s.len(),
{
    if s.len() == 0 {
        -1
    } else if s.last() == c {
        s.len() - 1
    } else {
        last_index_of(s.drop_last(), c)
    }
}

/// `last_index_of` returns -1 exactly when `c` is absent, and otherwise the
/// position of the last occurrence.
pub proof fn lemma_last_index_of(s: Seq<char>, c: char)
    ensures
        last_index_of(s, c) == -1 <==> !has_char(s, c),
        has_char(s, c) ==> {
            let r = last_index_of(s, c);
            &&& 0 <= r < s.len()
            &&& s[r] == c
            &&& forall|j: int| r < j < s.len() ==> s[j] != c
        },
    decreases s.len(),
{
    if s.len() == 0 {
    } else if s.last() == c {
    } else {
        lemma_last_index_of(s.drop_last(), c);
        assert forall|i: int| 0 <= i < s.len() - 1 implies s[i] == s.drop_last()[i] by {}
        if has_char(s, c) {
            let w = choose|i: int| 0 <= i < s.len() && s[i] == c;
            assert(w < s.len() - 1);
            assert(has_char(s.drop_last(), c));
        }
        if has_char(s.drop_last(), c) {
            let w = choose|i: int| 0 <= i < s.drop_last().len() && s.drop_last()[i] == c;
            assert(s[w] == c);
        }
    }
}

/// Appending characters none of which is `c` leaves the last occurrence of
/// `c` where it was.
pub proof fn lemma_last_index_of_append_free(a: Seq<char>, b: Seq<char>, c: char)
    requires
        !has_char(b, c),
    ensures
        last_index_of(a + b, c) == last_index_of(a, c),
    decreases b.len(),
{
    if b.len() == 0 {
        assert(a + b =~= a);
    } else {
        let b0 = b.drop_last();
        assert(!has_char(b0, c)) by {
            assert(forall|i: int| 0 <= i < b0.len() ==> b0[i] == b[i]);
        }
        assert(b[b.len() - 1] != c);
        assert((a + b).last() == b.last());
        assert((a + b).drop_last() =~= a + b0);
        lemma_last_index_of_append_free(a, b0, c);
    }
}

/// Within the suffix after the last occurrence of `c`, `c` does not occur.
pub proof fn lemma_tail_free(s: Seq<char>, c: char)
    ensures
        !has_char(s.subrange(last_index_of(s, c) + 1, s.len() as int), c),
{
    lemma_last_index_of(s, c);
    let r = last_index_of(s, c);
    if has_char(s, c) {
        let t = s.subrange(r + 1, s.len() as int);
        if has_char(t, c) {
            let w = choose|i: int| 0 <= i < t.len() && t[i] == c;
            assert(s[r + 1 + w] == c);
        }
    } else {
        let t = s.subrange(r + 1, s.len() as int);
        assert(t =~= s);
    }
}

/// Finds the last occurrence of `c` in `s`, if any.
pub fn find_last(s: &str, c: char) -> (r: Option<usize>)
    ensures
        match r {
            Some(i) => i == last_index_of(s@, c) && 0 <= last_index_of(s@, c) < s@.len(),
            None => last_index_of(s@, c) == -1,
        },
{
    let n = s.unicode_len();
    let mut i: usize = 0;
    let mut best: Option<usize> = None;
    while i < n
        invariant
            n == s@.len(),
            i <= n,
            match best {
                Some(b) => b == last_index_of(s@.take(i as int), c) && b < i,
                None => last_index_of(s@.take(i as int), c) == -1,
            },
        decreases n - i,
    {
        let ch = s.get_char(i);
        proof {
            assert(s@.take(i + 1).drop_last() =~= s@.take(i as int));
            assert(s@.take(i + 1).last() == s@[i as int]);
        }
        if ch == c {
            best = Some(i);
        }
        i = i + 1;
    }
    proof {
        assert(s@.take(n as int) =~= s@);
    }
    best
}

/// Whether `s` ends with the character sequence `suffix`.
pub open spec fn spec_ends_with(s: Seq<char>, suffix: Seq<char>) -> bool {
    s.len() >= suffix.len() && s.subrange(s.len() - suffix.len(), s.len() as int) == suffix
}

/// Decides whether `s` ends with `suffix`.
pub fn ends_with(s: &str, suffix: &str) -> (r: bool)
    ensures
        r == spec_ends_with(s@, suffix@),
{
    let n = s.unicode_len();
    let m = suffix.unicode_len();
    if n < m {
        assert(!spec_ends_with(s@, suffix@));
        return false;
    }
    let tail = s.substring_char(n - m, n);
    let r = tail.to_owned() == suffix.to_owned();
    proof {
        if tail@ == suffix@ {
            assert(spec_ends_with(s@, suffix@));
        } else {
            assert(s@.subrange(s@.len() - suffix@.len(), s@.len() as int) != suffix@);
        }
    }
    r
}

/// Whether `p` occurs as a contiguous subsequence of `s`.
pub open spec fn spec_contains(s: Seq<char>, p: Seq<char>) -> bool {
    exists|i: int| 0 <= i && i + p.len() <= s.len() && #[trigger] s.subrange(i, i + p.len()) == p
}

/// Decides whether `p` occurs as a contiguous substring of `s`.
pub fn contains_str(s: &str, p: &str) -> (r: bool)
    ensures
        r == spec_contains(s@, p@),
{
    let n = s.unicode_len();
    let m = p.unicode_len();
    if m > n {
        assert(!spec_contains(s@, p@));
        return false;
    }
    if m == 0 {
        assert(spec_contains(s@, p@)) by {
            assert(s@.subrange(0, 0 + p@.len() as int) =~= p@);
        }
        return true;
    }
    let mut i: usize = 0;
    while i <= n - m
        invariant
            n == s@.len(),
            m == p@.len(),
            1 <= m <= n,
            i <= n - m + 1,
            forall|j: int| 0 <= j < i ==> #[trigger] s@.subrange(j, j + p@.len()) != p@,
        decreases n - m + 1 - i,
    {
        let sub = s.substring_char(i, i + m);
        if sub.to_owned() == p.to_owned() {
            assert(s@.subrange(i as int, i + p@.len()) == p@);
            return true;
        }
        i = i + 1;
    }
    assert forall|j: int| 0 <= j && j + p@.len() <= s@.len() implies #[trigger] s@.subrange(
        j,
        j + p@.len(),
    ) != p@ by {
        assert(j < i);
    }
    false
}

/// The tokens of `s` delimited by `sep`. Empty tokens are kept, and the
/// empty sequence yields one empty token.
pub open spec fn spec_split(s: Seq<char>, sep: char) -> Seq<Seq<char>>
    decreases s.len(),
{
    if s.len() == 0 {
        seq![Seq::<char>::empty()]
    } else {
        let rest = spec_split(s.drop_last(), sep);
        if s.last() == sep {
            rest + seq![Seq::<char>::empty()]
        } else {
            rest.update(rest.len() - 1, rest.last().push(s.last()))
        }
    }
}

/// Splitting yields one token more than there are separators.
pub proof fn lemma_split_len(s: Seq<char>, sep: char)
    ensures
        spec_split(s, sep).len() == char_count(s, sep) + 1,
    decreases s.len(),
{
    if s.len() == 0 {
    } else {
        lemma_split_len(s.drop_last(), sep);
    }
}

/// Splits `s` at every occurrence of `sep`, keeping empty tokens.
pub fn split_char(s: &str, sep: char) -> (r: Vec<String>)
    ensures
        r@.map_values(|t: String| t@) == spec_split(s@, sep),
{
    let n = s.unicode_len();
    let mut out: Vec<String> = Vec::new();
    let mut cur: String = String::new();
    let mut i: usize = 0;
    proof {
        assert(out@.map_values(|t: String| t@).push(cur@) =~= spec_split(s@.take(0), sep));
    }
    while i < n
        invariant
            n == s@.len(),
            i <= n,
            out@.map_values(|t: String| t@).push(cur@) == spec_split(s@.take(i as int), sep),
        decreases n - i,
    {
        let ghost prev_out = out@.map_values(|t: String| t@);
        let ghost prev_cur = cur@;
        let ch = s.get_char(i);
        proof {
            assert(s@.take(i + 1).drop_last() =~= s@.take(i as int));
            assert(s@.take(i + 1).last() == s@[i as int]);
            lemma_split_len(s@.take(i as int), sep);
        }
        if ch == sep {
            out.push(cur);
            cur = String::new();
            proof {
                assert(out@.map_values(|t: String| t@) =~= prev_out.push(prev_cur));
                assert(out@.map_values(|t: String| t@).push(cur@) =~= spec_split(
                    s@.take(i + 1),
                    sep,
                ));
            }
        } else {
            let piece = s.substring_char(i, i + 1);
            proof {
                assert(piece@ =~= seq![s@[i as int]]);
            }
            cur.append(piece);
            proof {
                let rest = spec_split(s@.take(i as int), sep);
                assert(rest == prev_out.push(prev_cur));
                assert(rest.last() == prev_cur);
                assert(rest.len() - 1 == prev_out.len());
                assert(cur@ =~= prev_cur.push(s@[i as int]));
                assert(out@.map_values(|t: String| t@).push(cur@) =~= rest.update(
                    rest.len() - 1,
                    rest.last().push(s@[i as int]),
                ));
            }
        }
        i = i + 1;
    }
    proof {
        assert(s@.take(n as int) =~= s@);
    }
    out.push(cur);
    proof {
        assert(out@.map_values(|t: String| t@) =~= spec_split(s@, sep));
    }
    out
}

/// The tokens of `parts` joined with `sep` between consecutive tokens.
pub open spec fn spec_join(parts: Seq<Seq<char>>, sep: char) -> Seq<char>
    decreases parts.len(),
{
    if parts.len() == 0 {
        Seq::<char>::empty()
    } else if parts.len() == 1 {
        parts[0]
    } else {
        spec_join(parts.drop_last(), sep) + seq![sep] + parts.last()
    }
}

/// Joins `parts` with `sep` between consecutive parts. `sep_str` is the
/// one-character string holding `sep`.
pub fn join_char(parts: &Vec<String>, sep: char, sep_str: &str) -> (r: String)
    requires
        sep_str@ == seq![sep],
    ensures
        r@ == spec_join(parts@.map_values(|t: String| t@), sep),
{
    let ghost m = parts@.map_values(|t: String| t@);
    let mut r = String::new();
    let mut i: usize = 0;
    while i < parts.len()
        invariant
            sep_str@ == seq![sep],
            m == parts@.map_values(|t: String| t@),
            i <= parts@.len(),
            r@ == spec_join(m.take(i as int), sep),
        decreases parts@.len() - i,
    {
        if i > 0 {
            r.append(sep_str);
        }
        r.append(parts[i].as_str());
        proof {
            assert(m.take(i + 1).drop_last() =~= m.take(i as int));
            assert(m.take(i + 1).last() == m[i as int]);
            if i == 0 {
                assert(r@ =~= m.take(1)[0]);
            } else {
                assert(r@ =~= spec_join(m.take(i as int), sep) + seq![sep] + m[i as int]);
            }
        }
        i = i + 1;
    }
    proof {
        assert(m.take(parts@.len() as int) =~= m);
    }
    r
}

/// The decimal digit character for `d` in 0..10.
pub open spec fn dec_digit(d: int) -> char {
    if d == 0 {
        '0'
    } else if d == 1 {
        '1'
    } else if d == 2 {
        '2'
    } else if d == 3 {
        '3'
    } else if d == 4 {
        '4'
    } else if d == 5 {
        '5'
    } else if d == 6 {
        '6'
    } else if d == 7 {
        '7'
    } else if d == 8 {
        '8'
    } else {
        '9'
    }
}

/// The decimal representation of `n`, most significant digit first.
pub open spec fn spec_dec(n: int) -> Seq<char>
    decreases n,
{
    if n < 10 {
        seq![dec_digit(n)]
    } else {
        spec_dec(n / 10).push(dec_digit(n % 10))
    }
}

fn digit_str(d: u64) -> (r: &'static str)
    requires
        d < 10,
    ensures
        r@ == seq![dec_digit(d as int)],
{
    let r: &'static str = if d == 0 {
        "0"
    } else if d == 1 {
        "1"
    } else if d == 2 {
        "2"
    } else if d == 3 {
        "3"
    } else if d == 4 {
        "4"
    } else if d == 5 {
        "5"
    } else if d == 6 {
        "6"
    } else if d == 7 {
        "7"
    } else if d == 8 {
        "8"
    } else {
        "9"
    };
    proof {
        reveal_strlit("0");
        reveal_strlit("1");
        reveal_strlit("2");
        reveal_strlit("3");
        reveal_strlit("4");
        reveal_strlit("5");
        reveal_strlit("6");
        reveal_strlit("7");
        reveal_strlit("8");
        reveal_strlit("9");
        assert(r@ =~= seq![dec_digit(d as int)]);
    }
    r
}

/// Writes `n` in decimal.
pub fn u64_to_dec(n: u64) -> (r: String)
    ensures
        r@ == spec_dec(n as int),
    decreases n,
{
    let d = n % 10;
    let ds = digit_str(d);
    if n < 10 {
        ds.to_owned()
    } else {
        let prefix = u64_to_dec(n / 10);
        let r = prefix.concat(ds);
        proof {
            assert(r@ =~= spec_dec((n / 10) as int).push(dec_digit((n % 10) as int)));
        }
        r
    }
}

} // verus!
