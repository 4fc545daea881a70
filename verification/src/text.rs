//! Text utilities: whitespace trimming and decimal rendering of line numbers.

use vstd::prelude::*;

verus! {

/// A whitespace character, as the line cleaner understands it: the Unicode
/// `White_Space` set (tab through carriage return, space, next line, no-break
/// space, ogham space mark, the en-quad..hair-space range, the line and
/// paragraph separators, the narrow no-break, medium mathematical and
/// ideographic spaces), given by code point.
pub open spec fn is_space(c: char) -> bool {
    let u = c as u32;
    (0x09 <= u && u <= 0x0d) || u == 0x20 || u == 0x85 || u == 0xa0 || u == 0x1680 || (0x2000
        <= u && u <= 0x200a) || u == 0x2028 || u == 0x2029 || u == 0x202f || u == 0x205f || u
        == 0x3000
}

/// `s` without its leading whitespace.
pub open spec fn trim_front(s: Seq<char>) -> Seq<char>
    decreases s.len(),
{
    if s.len() == 0 {
        s
    } else if is_space(s[0]) {
        trim_front(s.drop_first())
    } else {
        s
    }
}

/// `s` without its trailing whitespace.
pub open spec fn trim_back(s: Seq<char>) -> Seq<char>
    decreases s.len(),
{
    if s.len() == 0 {
        s
    } else if is_space(s.last()) {
        trim_back(s.drop_last())
    } else {
        s
    }
}

/// `s` without leading and trailing whitespace; what is between the outermost
/// non-whitespace characters, internal whitespace included, is kept verbatim.
pub open spec fn trim_spec(s: Seq<char>) -> Seq<char> {
    trim_back(trim_front(s))
}

/// Dropping a fully-whitespace prefix, up to the first non-whitespace
/// character (or the end), is exactly `trim_front`.
proof fn lemma_trim_front_subrange(s: Seq<char>, i: int)
    requires
        0 <= i <= s.len(),
        forall|k: int| 0 <= k < i ==> is_space(s[k]),
        i == s.len() || !is_space(s[i]),
    ensures
        trim_front(s) == s.subrange(i, s.len() as int),
    decreases i,
{
    if i == 0 {
        if s.len() == 0 {
            assert(trim_front(s) =~= s.subrange(0, s.len() as int));
        } else {
            assert(!is_space(s[0]));
            assert(trim_front(s) =~= s.subrange(0, s.len() as int));
        }
    } else {
        assert(is_space(s[0]));
        let t = s.drop_first();
        lemma_trim_front_subrange(t, i - 1);
        assert(t.subrange(i - 1, t.len() as int) =~= s.subrange(i, s.len() as int));
    }
}

/// Dropping a fully-whitespace suffix, back to the last non-whitespace
/// character (or the start), is exactly `trim_back`.
proof fn lemma_trim_back_subrange(s: Seq<char>, j: int)
    requires
        0 <= j <= s.len(),
        forall|k: int| j <= k < s.len() ==> is_space(s[k]),
        j == 0 || !is_space(s[j - 1]),
    ensures
        trim_back(s) == s.subrange(0, j),
    decreases s.len(),
{
    if j == s.len() {
        if s.len() == 0 {
            assert(trim_back(s) =~= s.subrange(0, j));
        } else {
            assert(!is_space(s.last()));
            assert(trim_back(s) =~= s.subrange(0, j));
        }
    } else {
        assert(is_space(s.last()));
        let t = s.drop_last();
        lemma_trim_back_subrange(t, j);
        assert(t.subrange(0, j) =~= s.subrange(0, j));
    }
}

/// The trimmed text is a contiguous piece of the original line: everything
/// between the outermost non-whitespace characters, internal whitespace and
/// character case untouched.
pub proof fn lemma_trim_is_subrange(s: Seq<char>)
    ensures
        exists|i: int, j: int|
            0 <= i <= j <= s.len() && trim_spec(s) == s.subrange(i, j),
{
    lemma_trim_front_prefix_facts(s);
    let i = choose|i: int|
        0 <= i <= s.len() && trim_front(s) == s.subrange(i, s.len() as int) && (forall|k: int|
            0 <= k < i ==> is_space(s[k]));
    let f = trim_front(s);
    lemma_trim_back_suffix_facts(f);
    let j = choose|j: int|
        0 <= j <= f.len() && trim_back(f) == f.subrange(0, j);
    assert(f.subrange(0, j) =~= s.subrange(i, i + j));
    assert(trim_spec(s) == s.subrange(i, i + j));
}

/// What trimming leaves never begins or ends with whitespace.
pub proof fn lemma_trim_no_outer_space(s: Seq<char>)
    ensures
        trim_spec(s).len() > 0 ==> !is_space(trim_spec(s).first()) && !is_space(trim_spec(s).last()),
{
    let f = trim_front(s);
    let b = trim_back(f);
    if b.len() > 0 {
        lemma_trim_back_last(f);
        lemma_trim_back_suffix_facts(f);
        let j = choose|j: int| 0 <= j <= f.len() && trim_back(f) == f.subrange(0, j);
        assert(b.first() == f.first());
        lemma_trim_front_first(s);
    }
}

/// A non-empty `trim_front` result starts with a non-whitespace character.
proof fn lemma_trim_front_first(s: Seq<char>)
    ensures
        trim_front(s).len() > 0 ==> !is_space(trim_front(s).first()),
    decreases s.len(),
{
    if s.len() > 0 && is_space(s[0]) {
        lemma_trim_front_first(s.drop_first());
    }
}

/// A non-empty `trim_back` result ends with a non-whitespace character.
proof fn lemma_trim_back_last(s: Seq<char>)
    ensures
        trim_back(s).len() > 0 ==> !is_space(trim_back(s).last()),
    decreases s.len(),
{
    if s.len() > 0 && is_space(s.last()) {
        lemma_trim_back_last(s.drop_last());
    }
}

/// `trim_front` drops a whitespace prefix and nothing more.
proof fn lemma_trim_front_prefix_facts(s: Seq<char>)
    ensures
        exists|i: int|
            0 <= i <= s.len() && trim_front(s) == s.subrange(i, s.len() as int) && (forall|
                k: int,
            |
                0 <= k < i ==> is_space(s[k])),
    decreases s.len(),
{
    if s.len() == 0 || !is_space(s[0]) {
        assert(trim_front(s) =~= s.subrange(0, s.len() as int));
        assert(0 <= 0 <= s.len() && trim_front(s) == s.subrange(0, s.len() as int) && (forall|
            k: int,
        |
            0 <= k < 0 ==> is_space(s[k])));
    } else {
        let t = s.drop_first();
        lemma_trim_front_prefix_facts(t);
        let i = choose|i: int|
            0 <= i <= t.len() && trim_front(t) == t.subrange(i, t.len() as int) && (forall|
                k: int,
            |
                0 <= k < i ==> is_space(t[k]));
        assert(t.subrange(i, t.len() as int) =~= s.subrange(i + 1, s.len() as int));
        assert forall|k: int| 0 <= k < i + 1 implies is_space(s[k]) by {
            if k > 0 {
                assert(is_space(t[k - 1]));
            }
        }
    }
}

/// `trim_back` drops a whitespace suffix and nothing more.
proof fn lemma_trim_back_suffix_facts(s: Seq<char>)
    ensures
        exists|j: int| 0 <= j <= s.len() && trim_back(s) == s.subrange(0, j),
    decreases s.len(),
{
    if s.len() == 0 || !is_space(s.last()) {
        assert(trim_back(s) =~= s.subrange(0, s.len() as int));
    } else {
        let t = s.drop_last();
        lemma_trim_back_suffix_facts(t);
        let j = choose|j: int| 0 <= j <= t.len() && trim_back(t) == t.subrange(0, j);
        assert(t.subrange(0, j) =~= s.subrange(0, j));
    }
}

fn space(c: char) -> (r: bool)
    ensures
        r == is_space(c),
{
    let u = c as u32;
    (0x09 <= u && u <= 0x0d) || u == 0x20 || u == 0x85 || u == 0xa0 || u == 0x1680 || (0x2000
        <= u && u <= 0x200a) || u == 0x2028 || u == 0x2029 || u == 0x202f || u == 0x205f || u
        == 0x3000
}

/// Strip leading and trailing whitespace from `s`.
pub fn trim(s: &str) -> (r: String)
    ensures
        r@ == trim_spec(s@),
{
    let n = s.unicode_len();
    let mut start: usize = 0;
    while start < n && space(s.get_char(start))
        invariant
            0 <= start <= n,
            n == s@.len(),
            forall|k: int| 0 <= k < start ==> is_space(s@[k]),
        decreases n - start,
    {
        start += 1;
    }
    proof {
        lemma_trim_front_subrange(s@, start as int);
    }
    if start == n {
        let r = String::new();
        proof {
            assert(trim_front(s@).len() == 0);
            assert(trim_spec(s@) =~= Seq::<char>::empty());
        }
        return r;
    }
    let mut end: usize = n;
    while end > start && space(s.get_char(end - 1))
        invariant
            start <= end <= n,
            n == s@.len(),
            forall|k: int| end <= k < n ==> is_space(s@[k]),
        decreases end,
    {
        end -= 1;
    }
    proof {
        assert(end > start) by {
            if end == start {
                assert(is_space(s@[start as int]));
            }
        }
        let f = s@.subrange(start as int, n as int);
        lemma_trim_back_subrange(f, end - start);
        assert(f.subrange(0, end - start) =~= s@.subrange(start as int, end as int));
    }
    String::from_str(s.substring_char(start, end))
}

/// The decimal digit character for `d`, for `d < 10`.
pub open spec fn digit_char(d: nat) -> char {
    if d == 0 {
        '0'
    } else if d == 1 {
        '1'
    } else if d == 2 {
        '2'
    } else if d == 3 {
        '3'
    } else if d == 4 {
        '4'
    } else if d == 5 {
        '5'
    } else if d == 6 {
        '6'
    } else if d == 7 {
        '7'
    } else if d == 8 {
        '8'
    } else {
        '9'
    }
}

/// The decimal rendering of `n`, most significant digit first, no sign and no
/// leading zeros (`0` renders as `"0"`).
pub open spec fn dec_str(n: nat) -> Seq<char>
    decreases n,
{
    if n < 10 {
        seq![digit_char(n)]
    } else {
        dec_str(n / 10).push(digit_char(n % 10))
    }
}

fn digit_str(d: usize) -> (r: &'static str)
    requires
        d < 10,
    ensures
        r@ =~= seq![digit_char(d as nat)],
{
    if d == 0 {
        proof {
            reveal_strlit("0");
        }
        "0"
    } else if d == 1 {
        proof {
            reveal_strlit("1");
        }
        "1"
    } else if d == 2 {
        proof {
            reveal_strlit("2");
        }
        "2"
    } else if d == 3 {
        proof {
            reveal_strlit("3");
        }
        "3"
    } else if d == 4 {
        proof {
            reveal_strlit("4");
        }
        "4"
    } else if d == 5 {
        proof {
            reveal_strlit("5");
        }
        "5"
    } else if d == 6 {
        proof {
            reveal_strlit("6");
        }
        "6"
    } else if d == 7 {
        proof {
            reveal_strlit("7");
        }
        "7"
    } else if d == 8 {
        proof {
            reveal_strlit("8");
        }
        "8"
    } else {
        proof {
            reveal_strlit("9");
        }
        "9"
    }
}

/// Render `n` in decimal.
pub fn usize_to_string(n: usize) -> (r: String)
    ensures
        r@ == dec_str(n as nat),
    decreases n,
{
    if n < 10 {
        let r = String::from_str(digit_str(n));
        proof {
            assert(r@ =~= dec_str(n as nat));
        }
        r
    } else {
        let mut r = usize_to_string(n / 10);
        r.append(digit_str(n % 10));
        proof {
            assert(r@ =~= dec_str(n as nat));
        }
        r
    }
}

} // verus!
