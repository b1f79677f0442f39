//! Small string helpers shared across the library: character access,
//! equality, path joining, suffix tests and decimal parsing, each with an
//! exact contract over the character view.
use vstd::prelude::*;

verus! {

/// The characters of `s`, one per element.
pub fn str_to_chars(s: &str) -> (v: Vec<char>)
    ensures
        v@ == s@,
{
    let n: usize = s.unicode_len();
    let mut v: Vec<char> = Vec::new();
    let mut i: usize = 0;
    while i < n
        invariant
            n == s@.len(),
            i <= n,
            v@ =~= s@.subrange(0, i as int),
        decreases n - i,
    {
        v.push(s.get_char(i));
        i = i + 1;
    }
    proof {
        assert(v@ =~= s@);
    }
    v
}

/// Relies on `String: FromIterator<char>`: collecting characters yields the
/// string of exactly those characters in order.
#[verifier::external_body]
pub fn chars_to_string(v: &Vec<char>) -> (s: String)
    ensures
        s@ == v@,
{
    v.iter().collect()
}

/// The characters `String::from_utf8_lossy` reads from these bytes: a
/// function of the bytes alone.
pub uninterp spec fn utf8_lossy_of(b: Seq<u8>) -> Seq<char>;

/// Relies on `String::from_utf8_lossy`: the result depends on the bytes
/// alone, and ASCII bytes decode to the characters they write.
#[verifier::external_body]
pub fn string_from_utf8_lossy(bytes: &Vec<u8>) -> (r: String)
    ensures
        r@ == utf8_lossy_of(bytes@),
        (forall|i: int| 0 <= i < bytes@.len() ==> bytes@[i] < 128) ==> r@ == Seq::new(
            bytes@.len(),
            |i: int| bytes@[i] as char,
        ),
{
    String::from_utf8_lossy(bytes.as_slice()).into_owned()
}

/// The characters `v[from..to]` as a fresh vector.
pub fn chars_subvec(v: &Vec<char>, from: usize, to: usize) -> (r: Vec<char>)
    requires
        from <= to <= v@.len(),
    ensures
        r@ == v@.subrange(from as int, to as int),
{
    let mut part: Vec<char> = Vec::new();
    let mut i: usize = from;
    while i < to
        invariant
            from <= i <= to <= v@.len(),
            part@ =~= v@.subrange(from as int, i as int),
        decreases to - i,
    {
        part.push(v[i]);
        i = i + 1;
    }
    proof {
        assert(part@ =~= v@.subrange(from as int, to as int));
    }
    part
}

/// The string of the characters `v[from..to]`.
pub fn chars_range_to_string(v: &Vec<char>, from: usize, to: usize) -> (s: String)
    requires
        from <= to <= v@.len(),
    ensures
        s@ == v@.subrange(from as int, to as int),
{
    let part: Vec<char> = chars_subvec(v, from, to);
    chars_to_string(&part)
}

/// Character-wise equality of two character vectors.
pub fn chars_eq(a: &Vec<char>, b: &Vec<char>) -> (r: bool)
    ensures
        r == (a@ == b@),
{
    if a.len() != b.len() {
        proof {
            assert(a@ != b@) by {
                if a@ == b@ {
                    assert(a@.len() == b@.len());
                }
            }
        }
        return false;
    }
    let mut i: usize = 0;
    while i < a.len()
        invariant
            i <= a@.len(),
            a@.len() == b@.len(),
            forall|k: int| 0 <= k < i ==> a@[k] == b@[k],
        decreases a@.len() - i,
    {
        if a[i] != b[i] {
            proof {
                assert(a@ != b@) by {
                    if a@ == b@ {
                        assert(a@[i as int] == b@[i as int]);
                    }
                }
            }
            return false;
        }
        i = i + 1;
    }
    proof {
        assert(a@ =~= b@);
    }
    true
}

/// Character-wise string equality.
pub fn str_eq(a: &str, b: &str) -> (r: bool)
    ensures
        r == (a@ == b@),
{
    let na: usize = a.unicode_len();
    let nb: usize = b.unicode_len();
    if na != nb {
        proof {
            assert(a@ != b@) by {
                if a@ == b@ {
                    assert(a@.len() == b@.len());
                }
            }
        }
        return false;
    }
    let mut i: usize = 0;
    while i < na
        invariant
            na == a@.len(),
            na == b@.len(),
            i <= na,
            forall|k: int| 0 <= k < i ==> a@[k] == b@[k],
        decreases na - i,
    {
        if a.get_char(i) != b.get_char(i) {
            proof {
                assert(a@ != b@) by {
                    if a@ == b@ {
                        assert(a@[i as int] == b@[i as int]);
                    }
                }
            }
            return false;
        }
        i = i + 1;
    }
    proof {
        assert(a@ =~= b@);
    }
    true
}

/// `base` and `name` joined by one forward slash.
pub open spec fn path_join_spec(base: Seq<char>, name: Seq<char>) -> Seq<char> {
    base + seq!['/'] + name
}

pub fn path_join(base: &str, name: &str) -> (r: String)
    ensures
        r@ == path_join_spec(base@, name@),
{
    proof {
        reveal_strlit("/");
    }
    let mut r: String = base.to_owned();
    r.append("/");
    r.append(name);
    proof {
        assert(r@ =~= path_join_spec(base@, name@));
    }
    r
}

/// Whether `s` ends in `suffix`.
pub open spec fn ends_with_spec(s: Seq<char>, suffix: Seq<char>) -> bool {
    s.len() >= suffix.len() && s.subrange(s.len() - suffix.len(), s.len() as int) == suffix
}

pub fn ends_with(s: &str, suffix: &str) -> (r: bool)
    ensures
        r == ends_with_spec(s@, suffix@),
{
    let n: usize = s.unicode_len();
    let m: usize = suffix.unicode_len();
    if n < m {
        return false;
    }
    let mut i: usize = 0;
    while i < m
        invariant
            n == s@.len(),
            m == suffix@.len(),
            m <= n,
            i <= m,
            forall|k: int| 0 <= k < i ==> s@[n - m + k] == suffix@[k],
        decreases m - i,
    {
        if s.get_char(n - m + i) != suffix.get_char(i) {
            proof {
                assert(s@.subrange(s@.len() - m, s@.len() as int)[i as int] == s@[n - m + i]);
            }
            return false;
        }
        i = i + 1;
    }
    proof {
        assert(s@.subrange(s@.len() - m, s@.len() as int) =~= suffix@);
    }
    true
}

/// What follows the last forward slash of `s`; all of `s` when it has none.
pub open spec fn basename_spec(s: Seq<char>) -> Seq<char>
    decreases s.len(),
{
    if s.len() == 0 {
        s
    } else if s.last() == '/' {
        Seq::empty()
    } else {
        basename_spec(s.drop_last()).push(s.last())
    }
}

proof fn lemma_basename_subrange(s: Seq<char>, cut: int)
    requires
        0 <= cut <= s.len(),
        forall|k: int| cut <= k < s.len() ==> s[k] != '/',
        cut > 0 ==> s[cut - 1] == '/',
    ensures
        basename_spec(s) == s.subrange(cut, s.len() as int),
    decreases s.len(),
{
    if s.len() == 0 {
        assert(basename_spec(s) =~= s.subrange(cut, s.len() as int));
    } else if cut == s.len() {
        assert(s.last() == '/');
        assert(basename_spec(s) =~= s.subrange(cut, s.len() as int));
    } else {
        assert(s.last() != '/');
        lemma_basename_subrange(s.drop_last(), cut);
        assert(basename_spec(s) =~= s.subrange(cut, s.len() as int));
    }
}

/// The basename of a slash-separated path.
pub fn basename(s: &str) -> (r: String)
    ensures
        r@ == basename_spec(s@),
{
    let chars: Vec<char> = str_to_chars(s);
    let n: usize = chars.len();
    let mut cut: usize = n;
    while cut > 0 && chars[cut - 1] != '/'
        invariant
            n == s@.len(),
            chars@ == s@,
            cut <= n,
            forall|k: int| cut <= k < n ==> s@[k] != '/',
        decreases cut,
    {
        cut = cut - 1;
    }
    proof {
        lemma_basename_subrange(s@, cut as int);
    }
    chars_range_to_string(&chars, cut, n)
}

pub open spec fn is_dec_digit(c: char) -> bool {
    ('0' as u32) <= (c as u32) && (c as u32) <= ('9' as u32)
}

pub open spec fn all_dec_digits(s: Seq<char>) -> bool {
    forall|i: int| 0 <= i < s.len() ==> is_dec_digit(#[trigger] s[i])
}

/// The number the decimal digits of `s` write.
pub open spec fn dec_digits_value(s: Seq<char>) -> nat
    decreases s.len(),
{
    if s.len() == 0 {
        0
    } else {
        dec_digits_value(s.drop_last()) * 10 + ((s.last() as u32) - ('0' as u32)) as nat
    }
}

pub proof fn lemma_dec_take_succ(s: Seq<char>, i: int)
    requires
        0 <= i < s.len(),
    ensures
        dec_digits_value(s.take(i + 1)) == dec_digits_value(s.take(i)) * 10 + ((s[i] as u32) - (
        '0' as u32)) as nat,
{
    assert(s.take(i + 1).drop_last() =~= s.take(i));
    assert(s.take(i + 1).last() == s[i]);
}

/// Reading more digits never shrinks the value.
pub proof fn lemma_dec_value_monotone(s: Seq<char>, i: int)
    requires
        0 <= i <= s.len(),
    ensures
        dec_digits_value(s.take(i)) <= dec_digits_value(s),
    decreases s.len() - i,
{
    if i == s.len() {
        assert(s.take(i) =~= s);
    } else {
        lemma_dec_take_succ(s, i);
        assert(dec_digits_value(s.take(i)) <= dec_digits_value(s.take(i)) * 10) by (nonlinear_arith);
        lemma_dec_value_monotone(s, i + 1);
    }
}

/// Few digits write small numbers: bounds for up to three digits.
pub proof fn lemma_dec_bounded(s: Seq<char>)
    requires
        all_dec_digits(s),
    ensures
        s.len() <= 1 ==> dec_digits_value(s) < 10,
        s.len() <= 2 ==> dec_digits_value(s) < 100,
        s.len() <= 3 ==> dec_digits_value(s) < 1000,
    decreases s.len(),
{
    if s.len() > 0 {
        assert(forall|i: int| 0 <= i < s.drop_last().len() ==> is_dec_digit(
            #[trigger] s.drop_last()[i],
        ));
        lemma_dec_bounded(s.drop_last());
        assert(is_dec_digit(s.last()));
    }
}

/// What `str::parse::<u64>` returns on `s`: an optional leading plus sign,
/// then at least one decimal digit, the value fitting in 64 bits.
pub open spec fn parse_u64_spec(s: Seq<char>) -> Option<u64> {
    let body = if s.len() > 0 && s[0] == '+' {
        s.skip(1)
    } else {
        s
    };
    if body.len() >= 1 && all_dec_digits(body) && dec_digits_value(body) <= u64::MAX {
        Some(dec_digits_value(body) as u64)
    } else {
        None
    }
}

/// Parses the decimal digits `v[from..to]` as a `u64`; `None` on an empty or
/// non-digit run, or on overflow.
pub fn parse_u64_digits(v: &Vec<char>, from: usize, to: usize) -> (r: Option<u64>)
    requires
        from <= to <= v@.len(),
    ensures
        ({
            let body = v@.subrange(from as int, to as int);
            match r {
                Some(n) => body.len() >= 1 && all_dec_digits(body) && dec_digits_value(body)
                    <= u64::MAX && n == dec_digits_value(body),
                None => !(body.len() >= 1 && all_dec_digits(body) && dec_digits_value(body)
                    <= u64::MAX),
            }
        }),
{
    let ghost body = v@.subrange(from as int, to as int);
    let n: usize = to;
    if from == n {
        return None;
    }
    let mut acc: u64 = 0;
    let mut i: usize = from;
    while i < n
        invariant
            from <= i <= n,
            n == to <= v@.len(),
            from < n,
            body == v@.subrange(from as int, to as int),
            forall|k: int| 0 <= k < i - from ==> is_dec_digit(#[trigger] body[k]),
            acc == dec_digits_value(body.take(i - from)),
        decreases n - i,
    {
        let c: char = v[i];
        let u: u32 = c as u32;
        if !(48 <= u && u <= 57) {
            proof {
                assert(body[i - from] == v@[i as int]);
                assert(!is_dec_digit(body[i - from]));
            }
            return None;
        }
        let d: u64 = (u - 48) as u64;
        proof {
            lemma_dec_take_succ(body, i - from);
        }
        if acc > (u64::MAX - d) / 10 {
            proof {
                assert(acc * 10 + d > u64::MAX);
                lemma_dec_value_monotone(body, i - from + 1);
            }
            return None;
        }
        acc = acc * 10 + d;
        i = i + 1;
    }
    proof {
        assert(body.take(n - from) =~= body);
    }
    Some(acc)
}

/// Parses a character vector as `str::parse::<u64>` does, with an optional
/// leading plus sign.
pub fn parse_u64_chars(chars: &Vec<char>) -> (r: Option<u64>)
    ensures
        r == parse_u64_spec(chars@),
{
    let from: usize = if chars.len() > 0 && chars[0] == '+' {
        1
    } else {
        0
    };
    let r = parse_u64_digits(&chars, from, chars.len());
    proof {
        if chars@.len() > 0 && chars@[0] == '+' {
            assert(chars@.subrange(1, chars@.len() as int) =~= chars@.skip(1));
        } else {
            assert(chars@.subrange(0, chars@.len() as int) =~= chars@);
        }
    }
    r
}

/// Parses a whole string as `str::parse::<u64>` does, with an optional
/// leading plus sign.
pub fn parse_u64_str(s: &str) -> (r: Option<u64>)
    ensures
        r == parse_u64_spec(s@),
{
    let chars: Vec<char> = str_to_chars(s);
    parse_u64_chars(&chars)
}

/// The first position at or after `i` whose character fails `p`.
pub open spec fn run_end(s: Seq<char>, i: int, p: spec_fn(char) -> bool) -> int
    decreases s.len() - i,
    when 0 <= i <= s.len()
{
    if i == s.len() {
        i
    } else if p(s[i]) {
        run_end(s, i + 1, p)
    } else {
        i
    }
}

pub proof fn lemma_run_end_at(s: Seq<char>, i0: int, e: int, p: spec_fn(char) -> bool)
    requires
        0 <= i0 <= e <= s.len(),
        forall|k: int| i0 <= k < e ==> p(#[trigger] s[k]),
        e == s.len() || !p(s[e]),
    ensures
        run_end(s, i0, p) == e,
    decreases e - i0,
{
    if i0 < e {
        lemma_run_end_at(s, i0 + 1, e, p);
    }
}

pub proof fn lemma_run_end_bounds(s: Seq<char>, i: int, p: spec_fn(char) -> bool)
    requires
        0 <= i <= s.len(),
    ensures
        i <= run_end(s, i, p) <= s.len(),
    decreases s.len() - i,
{
    if i < s.len() && p(s[i]) {
        lemma_run_end_bounds(s, i + 1, p);
    }
}

pub proof fn lemma_run_end_props(s: Seq<char>, i: int, p: spec_fn(char) -> bool)
    requires
        0 <= i <= s.len(),
    ensures
        i <= run_end(s, i, p) <= s.len(),
        forall|k: int| i <= k < run_end(s, i, p) ==> p(#[trigger] s[k]),
        run_end(s, i, p) < s.len() ==> !p(s[run_end(s, i, p)]),
    decreases s.len() - i,
{
    if i < s.len() && p(s[i]) {
        lemma_run_end_props(s, i + 1, p);
    }
}

} // verus!
