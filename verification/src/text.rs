//! Character-sequence utilities shared by the textual forms of the library:
//! decimal numerals, character search, and access to a string's characters.

use vstd::prelude::*;

verus! {

/// Whether `c` is a decimal digit.
pub open spec fn is_digit(c: char) -> bool {
    '0' <= c && c <= '9'
}

/// The numeric value of a digit character; 0 on anything else.
pub open spec fn digit_val(c: char) -> nat {
    if is_digit(c) {
        (c as int - '0' as int) as nat
    } else {
        0
    }
}

/// The digit character of a value below ten.
pub open spec fn digit_char(d: nat) -> char {
    if d == 0 {
        '0'
    } else if d == 1 {
        '1'
    } else if d == 2 {
        '2'
    } else if d == 3 {
        '3'
    } else if d == 4 {
        '4'
    } else if d == 5 {
        '5'
    } else if d == 6 {
        '6'
    } else if d == 7 {
        '7'
    } else if d == 8 {
        '8'
    } else {
        '9'
    }
}

/// The decimal numeral of `n`, most significant digit first, no leading
/// zeros (a single `'0'` for zero).
pub open spec fn dec_rep(n: nat) -> Seq<char>
    decreases n,
{
    if n < 10 {
        seq![digit_char(n)]
    } else {
        dec_rep(n / 10).push(digit_char(n % 10))
    }
}

/// Whether every character of `s` is a decimal digit.
pub open spec fn all_digits(s: Seq<char>) -> bool {
    forall|i: int| 0 <= i < s.len() ==> is_digit(s[i])
}

/// The value of `s` read as a decimal numeral.
pub open spec fn dec_val(s: Seq<char>) -> nat
    decreases s.len(),
{
    if s.len() == 0 {
        0
    } else {
        dec_val(s.drop_last()) * 10 + digit_val(s.last())
    }
}

/// The value of a numeral does not shrink when the numeral is extended.
pub proof fn lemma_dec_val_prefix(s: Seq<char>, n: int)
    requires
        0 <= n <= s.len(),
    ensures
        dec_val(s.subrange(0, n)) <= dec_val(s),
    decreases s.len(),
{
    if n == s.len() {
        assert(s.subrange(0, n) =~= s);
    } else {
        assert(s.drop_last().subrange(0, n) =~= s.subrange(0, n));
        lemma_dec_val_prefix(s.drop_last(), n);
    }
}

/// A digit character evaluates back to the digit it was made from.
pub proof fn lemma_digit_roundtrip(d: nat)
    requires
        d < 10,
    ensures
        is_digit(digit_char(d)),
        digit_val(digit_char(d)) == d,
{
    assert('0' as int == 48 && '1' as int == 49 && '2' as int == 50 && '3' as int == 51 && '4'
        as int == 52 && '5' as int == 53 && '6' as int == 54 && '7' as int == 55 && '8' as int
        == 56 && '9' as int == 57);
}

/// The numeral of `n` consists of digits and evaluates back to `n`.
pub proof fn lemma_dec_rep_val(n: nat)
    ensures
        all_digits(dec_rep(n)),
        dec_rep(n).len() >= 1,
        dec_val(dec_rep(n)) == n,
    decreases n,
{
    if n < 10 {
        lemma_digit_roundtrip(n);
        assert(dec_rep(n) =~= seq![digit_char(n)]);
        assert(dec_rep(n).drop_last() =~= Seq::<char>::empty());
        assert(dec_val(dec_rep(n)) == dec_val(Seq::<char>::empty()) * 10 + digit_val(
            digit_char(n),
        ));
    } else {
        lemma_digit_roundtrip(n % 10);
        lemma_dec_rep_val(n / 10);
        let s = dec_rep(n / 10).push(digit_char(n % 10));
        assert(s.drop_last() =~= dec_rep(n / 10));
        assert(forall|i: int|
            0 <= i < s.len() ==> s[i] == (if i < s.len() - 1 {
                dec_rep(n / 10)[i]
            } else {
                digit_char(n % 10)
            }));
    }
}

/// The first position of `c` in `s`, if any.
pub open spec fn find_char(s: Seq<char>, c: char) -> Option<int>
    decreases s.len(),
{
    if s.len() == 0 {
        None
    } else if s[0] == c {
        Some(0int)
    } else {
        match find_char(s.drop_first(), c) {
            Some(i) => Some(i + 1),
            None => None,
        }
    }
}

/// `find_char` yields the first occurrence: the position holds `c` and no
/// earlier position does; `None` means `c` does not occur at all.
pub proof fn lemma_find_char(s: Seq<char>, c: char)
    ensures
        match find_char(s, c) {
            Some(i) => 0 <= i < s.len() && s[i] == c && (forall|k: int| 0 <= k < i ==> s[k] != c),
            None => forall|k: int| 0 <= k < s.len() ==> s[k] != c,
        },
    decreases s.len(),
{
    if s.len() != 0 && s[0] != c {
        lemma_find_char(s.drop_first(), c);
        assert(forall|k: int| 1 <= k < s.len() ==> s[k] == s.drop_first()[k - 1]);
    }
}

/// A witness of a first occurrence determines `find_char`.
pub proof fn lemma_find_char_witness(s: Seq<char>, c: char, i: int)
    requires
        0 <= i < s.len(),
        s[i] == c,
        forall|k: int| 0 <= k < i ==> s[k] != c,
    ensures
        find_char(s, c) == Some(i),
{
    lemma_find_char(s, c);
    match find_char(s, c) {
        Some(j) => {
            if j < i {
                assert(s[j] == c);
                assert(false);
            } else if j > i {
                assert(s[i] != c);
                assert(false);
            }
        },
        None => {
            assert(s[i] != c);
            assert(false);
        },
    }
}

/// Absence of `c` everywhere determines `find_char`.
pub proof fn lemma_find_char_absent(s: Seq<char>, c: char)
    requires
        forall|k: int| 0 <= k < s.len() ==> s[k] != c,
    ensures
        find_char(s, c) == None::<int>,
{
    lemma_find_char(s, c);
    match find_char(s, c) {
        Some(j) => {
            assert(s[j] != c);
            assert(false);
        },
        None => {
        },
    }
}

/// The first position where `pat` occurs inside `s`, if any.
pub open spec fn find_seq(s: Seq<char>, pat: Seq<char>) -> Option<int>
    decreases s.len(),
{
    if pat.len() > s.len() {
        None
    } else if s.subrange(0, pat.len() as int) == pat {
        Some(0int)
    } else if s.len() == 0 {
        None
    } else {
        match find_seq(s.drop_first(), pat) {
            Some(i) => Some(i + 1),
            None => None,
        }
    }
}

/// `find_seq` yields the first occurrence of `pat`, or `None` when `pat`
/// occurs nowhere in `s`.
pub proof fn lemma_find_seq(s: Seq<char>, pat: Seq<char>)
    ensures
        match find_seq(s, pat) {
            Some(i) => 0 <= i && i + pat.len() <= s.len() && s.subrange(i, i + pat.len() as int)
                == pat && (forall|k: int|
                0 <= k < i ==> #[trigger] s.subrange(k, k + pat.len() as int) != pat),
            None => forall|k: int|
                0 <= k && k + pat.len() <= s.len() ==> #[trigger] s.subrange(k, k + pat.len() as int) != pat,
        },
    decreases s.len(),
{
    if pat.len() > s.len() {
    } else if s.subrange(0, pat.len() as int) == pat {
    } else if s.len() == 0 {
        assert(s.subrange(0, pat.len() as int) =~= pat);
    } else {
        lemma_find_seq(s.drop_first(), pat);
        assert forall|k: int| 1 <= k && k + pat.len() <= s.len() implies #[trigger] s.subrange(
            k,
            k + pat.len() as int,
        ) == s.drop_first().subrange(k - 1, k - 1 + pat.len() as int) by {
            assert(s.subrange(k, k + pat.len() as int) =~= s.drop_first().subrange(
                k - 1,
                k - 1 + pat.len() as int,
            ));
        }
    }
}

/// A witness of a first occurrence determines `find_seq`.
pub proof fn lemma_find_seq_witness(s: Seq<char>, pat: Seq<char>, i: int)
    requires
        0 <= i,
        i + pat.len() <= s.len(),
        s.subrange(i, i + pat.len() as int) == pat,
        forall|k: int| 0 <= k < i ==> #[trigger] s.subrange(k, k + pat.len() as int) != pat,
    ensures
        find_seq(s, pat) == Some(i),
{
    lemma_find_seq(s, pat);
    match find_seq(s, pat) {
        Some(j) => {
            if j < i {
                assert(s.subrange(j, j + pat.len() as int) != pat);
                assert(false);
            } else if j > i {
                assert(s.subrange(i, i + pat.len() as int) != pat);
                assert(false);
            }
        },
        None => {
            assert(s.subrange(i, i + pat.len() as int) != pat);
            assert(false);
        },
    }
}

/// Absence of `pat` everywhere determines `find_seq`.
pub proof fn lemma_find_seq_absent(s: Seq<char>, pat: Seq<char>)
    requires
        forall|k: int|
            0 <= k && k + pat.len() <= s.len() ==> #[trigger] s.subrange(k, k + pat.len() as int)
                != pat,
    ensures
        find_seq(s, pat) == None::<int>,
{
    lemma_find_seq(s, pat);
    match find_seq(s, pat) {
        Some(j) => {
            assert(s.subrange(j, j + pat.len() as int) != pat);
            assert(false);
        },
        None => {
        },
    }
}

/// Finds the first occurrence of `pat` in `v`.
pub fn find_seq_in(v: &Vec<char>, pat: &Vec<char>) -> (r: Option<usize>)
    ensures
        match r {
            Some(u) => find_seq(v@, pat@) == Some(u as int),
            None => find_seq(v@, pat@) == None::<int>,
        },
{
    let n = v.len();
    let m = pat.len();
    if m > n {
        proof {
            lemma_find_seq(v@, pat@);
        }
        return None;
    }
    let mut i: usize = 0;
    while i <= n - m
        invariant
            m <= n == v@.len(),
            m == pat@.len(),
            i <= n - m + 1,
            forall|k: int| 0 <= k < i ==> #[trigger] v@.subrange(k, k + m as int) != pat@,
        decreases n - i,
    {
        let mut j: usize = 0;
        let mut matched = true;
        while j < m
            invariant
                m <= n == v@.len(),
                m == pat@.len(),
                i <= n - m,
                j <= m,
                matched ==> (forall|t: int| 0 <= t < j ==> v@[i + t] == pat@[t]),
                !matched ==> (exists|t: int| 0 <= t < m && v@[i + t] != pat@[t]),
            ensures
                matched ==> (forall|t: int| 0 <= t < m ==> v@[i + t] == pat@[t]),
                !matched ==> (exists|t: int| 0 <= t < m && v@[i + t] != pat@[t]),
            decreases m - j,
        {
            if v[i + j] != pat[j] {
                proof {
                    assert(v@[i + j as int] != pat@[j as int]);
                }
                matched = false;
                break;
            }
            j += 1;
        }
        if matched {
            proof {
                assert(v@.subrange(i as int, i + m as int) =~= pat@);
                lemma_find_seq_witness(v@, pat@, i as int);
            }
            return Some(i);
        }
        proof {
            let t = choose|t: int| 0 <= t < m && v@[i + t] != pat@[t];
            assert(v@.subrange(i as int, i + m as int)[t] != pat@[t]);
        }
        i += 1;
    }
    proof {
        assert forall|k: int| 0 <= k && k + m <= n implies #[trigger] v@.subrange(k, k + m as int)
            != pat@ by {
            assert(k < i);
        }
        lemma_find_seq_absent(v@, pat@);
    }
    None
}

/// Whether `lit` stands at position `i` of `v`.
pub fn starts_with_at(v: &Vec<char>, i: usize, lit: &str) -> (r: bool)
    requires
        i <= v.len(),
    ensures
        r == (i + lit@.len() <= v@.len() && v@.subrange(i as int, i + lit@.len() as int) == lit@),
{
    let p = str_chars(lit);
    let m = p.len();
    let n = v.len();
    if n - i < m {
        return false;
    }
    let mut j: usize = 0;
    let mut matched = true;
    while j < m
        invariant
            m == p@.len() == lit@.len(),
            p@ == lit@,
            i + m <= n == v@.len(),
            j <= m,
            matched ==> (forall|t: int| 0 <= t < j ==> v@[i + t] == p@[t]),
            !matched ==> (exists|t: int| 0 <= t < m && v@[i + t] != p@[t]),
        ensures
            matched ==> (forall|t: int| 0 <= t < m ==> v@[i + t] == p@[t]),
            !matched ==> (exists|t: int| 0 <= t < m && v@[i + t] != p@[t]),
        decreases m - j,
    {
        if v[i + j] != p[j] {
            proof {
                assert(v@[i + j as int] != p@[j as int]);
            }
            matched = false;
            break;
        }
        j += 1;
    }
    proof {
        if matched {
            assert(v@.subrange(i as int, i + m as int) =~= lit@);
        } else {
            let t = choose|t: int| 0 <= t < m && v@[i + t] != p@[t];
            assert(v@.subrange(i as int, i + m as int)[t] != lit@[t]);
        }
    }
    matched
}

/// The end of the run of digits starting at `j`.
pub open spec fn digits_end(s: Seq<char>, j: int) -> int
    decreases s.len() - j,
    when 0 <= j <= s.len()
{
    if j < s.len() && is_digit(s[j]) {
        digits_end(s, j + 1)
    } else {
        j
    }
}

/// The characters of `s`, as a vector indexable in constant time.
pub fn str_chars(s: &str) -> (v: Vec<char>)
    ensures
        v@ == s@,
{
    let n = s.unicode_len();
    let mut v: Vec<char> = Vec::new();
    let mut i: usize = 0;
    while i < n
        invariant
            n == s@.len(),
            i <= n,
            v@ =~= s@.subrange(0, i as int),
        decreases n - i,
    {
        v.push(s.get_char(i));
        i += 1;
    }
    assert(v@ =~= s@);
    v
}

/// The digit character of `d`, as a string slice.
pub fn digit_str(d: u64) -> (s: &'static str)
    requires
        d < 10,
    ensures
        s@ =~= seq![digit_char(d as nat)],
{
    proof {
        reveal_strlit("0");
        reveal_strlit("1");
        reveal_strlit("2");
        reveal_strlit("3");
        reveal_strlit("4");
        reveal_strlit("5");
        reveal_strlit("6");
        reveal_strlit("7");
        reveal_strlit("8");
        reveal_strlit("9");
    }
    if d == 0 {
        "0"
    } else if d == 1 {
        "1"
    } else if d == 2 {
        "2"
    } else if d == 3 {
        "3"
    } else if d == 4 {
        "4"
    } else if d == 5 {
        "5"
    } else if d == 6 {
        "6"
    } else if d == 7 {
        "7"
    } else if d == 8 {
        "8"
    } else {
        "9"
    }
}

/// Renders `n` as its decimal numeral.
pub fn render_u64(n: u64) -> (s: String)
    ensures
        s@ == dec_rep(n as nat),
    decreases n,
{
    if n < 10 {
        digit_str(n).to_owned()
    } else {
        let mut s = render_u64(n / 10);
        s.append(digit_str(n % 10));
        proof {
            assert(dec_rep((n / 10) as nat) + seq![digit_char((n % 10) as nat)] =~= dec_rep(
                (n / 10) as nat,
            ).push(digit_char((n % 10) as nat)));
            assert(n as nat / 10 == (n / 10) as nat);
            assert(n as nat % 10 == (n % 10) as nat);
        }
        s
    }
}

/// Parses `v[from..to]` as a decimal numeral fitting in `u64`.
pub open spec fn spec_parse_num(s: Seq<char>) -> Option<u64> {
    if s.len() > 0 && all_digits(s) && dec_val(s) <= u64::MAX {
        Some(dec_val(s) as u64)
    } else {
        None
    }
}

/// Parses the character range `[from, to)` of `v` as a decimal numeral.
pub fn parse_num_range(v: &Vec<char>, from: usize, to: usize) -> (r: Option<u64>)
    requires
        from <= to <= v.len(),
    ensures
        r == spec_parse_num(v@.subrange(from as int, to as int)),
{
    let ghost seg = v@.subrange(from as int, to as int);
    if from == to {
        return None;
    }
    let mut acc: u64 = 0;
    let mut i: usize = from;
    while i < to
        invariant
            from <= i <= to <= v.len(),
            seg == v@.subrange(from as int, to as int),
            all_digits(v@.subrange(from as int, i as int)),
            acc as nat == dec_val(v@.subrange(from as int, i as int)),
        decreases to - i,
    {
        let c = v[i];
        if !('0' <= c && c <= '9') {
            proof {
                assert(seg[i - from] == c);
                assert(!all_digits(seg));
            }
            return None;
        }
        let d: u64 = (c as u32 - '0' as u32) as u64;
        let ghost prefix = v@.subrange(from as int, i as int);
        let ghost ext = v@.subrange(from as int, i as int + 1);
        proof {
            assert(ext.drop_last() =~= prefix);
            assert(ext.last() == c);
            assert(dec_val(ext) == dec_val(prefix) * 10 + digit_val(c));
        }
        if acc > (u64::MAX - d) / 10 {
            proof {
                assert(dec_val(ext) > u64::MAX);
                lemma_dec_val_prefix(seg, i as int + 1 - from);
                assert(seg.subrange(0, i as int + 1 - from) =~= ext);
                assert(dec_val(seg) > u64::MAX);
            }
            return None;
        }
        acc = acc * 10 + d;
        i += 1;
    }
    proof {
        assert(v@.subrange(from as int, i as int) =~= seg);
    }
    Some(acc)
}

} // verus!
