use vstd::prelude::*;

verus! {

/// Relies on String::push: appends the given char to the end of the string.
#[verifier::external_body]
pub(crate) fn push_char(s: &mut String, c: char)
    ensures
        final(s)@ == old(s)@.push(c),
{
    s.push(c)
}

/// Collects the characters of a string slice into a vector.
pub fn str_to_chars(s: &str) -> (v: Vec<char>)
    ensures
        v@ == s@,
{
    let n = s.unicode_len();
    let mut v: Vec<char> = Vec::new();
    let mut i: usize = 0;
    while i < n
        invariant
            n == s@.len(),
            i <= n,
            v@ == s@.subrange(0, i as int),
        decreases n - i,
    {
        v.push(s.get_char(i));
        i = i + 1;
        proof {
            assert(v@ =~= s@.subrange(0, i as int));
        }
    }
    proof {
        assert(v@ =~= s@);
    }
    v
}

/// Builds a string whose characters are exactly those of the vector.
pub fn chars_to_string(v: &Vec<char>) -> (s: String)
    ensures
        s@ == v@,
{
    let mut s = String::new();
    let mut i: usize = 0;
    while i < v.len()
        invariant
            i <= v@.len(),
            s@ == v@.subrange(0, i as int),
        decreases v@.len() - i,
    {
        push_char(&mut s, v[i]);
        i = i + 1;
        proof {
            assert(s@ =~= v@.subrange(0, i as int));
        }
    }
    proof {
        assert(s@ =~= v@);
    }
    s
}

/// A string of `n` copies of the character `c`.
pub fn repeat_char(c: char, n: usize) -> (s: String)
    ensures
        s@ == Seq::new(n as nat, |i: int| c),
{
    let mut s = String::new();
    let mut i: usize = 0;
    while i < n
        invariant
            i <= n,
            s@ == Seq::new(i as nat, |j: int| c),
        decreases n - i,
    {
        push_char(&mut s, c);
        i = i + 1;
        proof {
            assert(s@ =~= Seq::new(i as nat, |j: int| c));
        }
    }
    s
}

/// The parts joined by `sep`: empty for no parts, and no trailing separator.
pub open spec fn spec_join(parts: Seq<Seq<char>>, sep: Seq<char>) -> Seq<char>
    decreases parts.len(),
{
    if parts.len() == 0 {
        Seq::empty()
    } else if parts.len() == 1 {
        parts[0]
    } else {
        parts[0] + sep + spec_join(parts.drop_first(), sep)
    }
}

/// Joins the strings with the separator, as the parts of a word are joined.
pub fn join_strings(parts: &Vec<String>, sep: &str) -> (r: String)
    ensures
        r@ == spec_join(parts.deep_view(), sep@),
{
    if parts.len() == 0 {
        String::new()
    } else {
        let mut r = parts[0].clone();
        let mut i: usize = 1;
        while i < parts.len()
            invariant
                1 <= i <= parts@.len(),
                r@ == spec_join(parts.deep_view().subrange(0, i as int), sep@),
            decreases parts@.len() - i,
        {
            r.append(sep);
            r.append(parts[i].as_str());
            i = i + 1;
            proof {
                lemma_join_snoc(parts.deep_view().subrange(0, i as int), sep@);
                assert(parts.deep_view().subrange(0, i as int).drop_last() =~= parts.deep_view()
                    .subrange(0, i - 1));
                assert(parts.deep_view().subrange(0, i as int).last() == parts.deep_view()[i - 1]);
            }
        }
        proof {
            assert(parts.deep_view().subrange(0, parts.deep_view().len() as int) =~= parts
                .deep_view());
        }
        r
    }
}

/// Appending one more part extends the join by the separator and that part.
pub proof fn lemma_join_snoc(parts: Seq<Seq<char>>, sep: Seq<char>)
    requires
        parts.len() >= 2,
    ensures
        spec_join(parts, sep) == spec_join(parts.drop_last(), sep) + sep + parts.last(),
    decreases parts.len(),
{
    if parts.len() == 2 {
        assert(parts.drop_first().len() == 1);
        assert(spec_join(parts.drop_first(), sep) == parts[1]);
        assert(parts.drop_last() =~= seq![parts[0]]);
        assert(spec_join(parts.drop_last(), sep) == parts[0]);
        assert(parts.last() == parts[1]);
    } else {
        lemma_join_snoc(parts.drop_first(), sep);
        assert(parts.drop_first().drop_last() =~= parts.drop_last().drop_first());
        assert(parts.drop_first().last() == parts.last());
        assert(spec_join(parts, sep) == parts[0] + sep + spec_join(parts.drop_first(), sep));
        assert(spec_join(parts.drop_last(), sep) == parts.drop_last()[0] + sep + spec_join(
            parts.drop_last().drop_first(),
            sep,
        ));
        assert(parts.drop_last()[0] == parts[0]);
        assert(spec_join(parts, sep) =~= spec_join(parts.drop_last(), sep) + sep + parts.last());
    }
}

/// Whether `c` is an ascii decimal digit.
pub open spec fn is_digit_char(c: char) -> bool {
    48 <= c as u32 <= 57
}

/// The value of an ascii digit character.
pub open spec fn digit_val(c: char) -> nat
    recommends
        is_digit_char(c),
{
    (c as u32 - 48) as nat
}

/// The digit character for a value below ten.
pub open spec fn spec_digit_char(d: nat) -> char
    recommends
        d < 10,
{
    if d == 0 {
        '0'
    } else if d == 1 {
        '1'
    } else if d == 2 {
        '2'
    } else if d == 3 {
        '3'
    } else if d == 4 {
        '4'
    } else if d == 5 {
        '5'
    } else if d == 6 {
        '6'
    } else if d == 7 {
        '7'
    } else if d == 8 {
        '8'
    } else {
        '9'
    }
}

fn digit_char(d: u64) -> (c: char)
    requires
        d < 10,
    ensures
        c == spec_digit_char(d as nat),
{
    if d == 0 {
        '0'
    } else if d == 1 {
        '1'
    } else if d == 2 {
        '2'
    } else if d == 3 {
        '3'
    } else if d == 4 {
        '4'
    } else if d == 5 {
        '5'
    } else if d == 6 {
        '6'
    } else if d == 7 {
        '7'
    } else if d == 8 {
        '8'
    } else {
        '9'
    }
}

/// The decimal numeral of `n`, most significant digit first.
pub open spec fn spec_dec(n: nat) -> Seq<char>
    decreases n,
{
    if n < 10 {
        seq![spec_digit_char(n)]
    } else {
        spec_dec(n / 10).push(spec_digit_char(n % 10))
    }
}

fn u64_dec_chars(n: u64) -> (v: Vec<char>)
    ensures
        v@ == spec_dec(n as nat),
    decreases n,
{
    if n < 10 {
        let mut v: Vec<char> = Vec::new();
        v.push(digit_char(n));
        proof {
            assert(v@ =~= seq![spec_digit_char(n as nat)]);
        }
        v
    } else {
        let mut v = u64_dec_chars(n / 10);
        v.push(digit_char(n % 10));
        v
    }
}

/// The decimal rendering of an unsigned number.
pub fn u64_to_string(n: u64) -> (s: String)
    ensures
        s@ == spec_dec(n as nat),
{
    let v = u64_dec_chars(n);
    chars_to_string(&v)
}

/// The decimal rendering of `n`: a minus sign and then the numeral of its
/// magnitude when `n` is negative, the plain numeral otherwise.
pub open spec fn spec_i32_dec(n: int) -> Seq<char> {
    if n < 0 {
        seq!['-'] + spec_dec((-n) as nat)
    } else {
        spec_dec(n as nat)
    }
}

/// The decimal rendering of a signed number.
pub fn i32_to_string(n: i32) -> (s: String)
    ensures
        s@ == spec_i32_dec(n as int),
{
    if n < 0 {
        let m: u64 = (-(n as i64)) as u64;
        let v = u64_dec_chars(m);
        let mut s = String::new();
        push_char(&mut s, '-');
        let rest = chars_to_string(&v);
        s.append(rest.as_str());
        proof {
            assert(s@ =~= seq!['-'] + spec_dec(m as nat));
        }
        s
    } else {
        u64_to_string(n as u64)
    }
}

/// The hexadecimal digit character for a value below sixteen.
pub open spec fn spec_hex_digit(d: nat) -> char
    recommends
        d < 16,
{
    if d < 10 {
        spec_digit_char(d)
    } else if d == 10 {
        'a'
    } else if d == 11 {
        'b'
    } else if d == 12 {
        'c'
    } else if d == 13 {
        'd'
    } else if d == 14 {
        'e'
    } else {
        'f'
    }
}

fn hex_digit(d: u64) -> (c: char)
    requires
        d < 16,
    ensures
        c == spec_hex_digit(d as nat),
{
    if d < 10 {
        digit_char(d)
    } else if d == 10 {
        'a'
    } else if d == 11 {
        'b'
    } else if d == 12 {
        'c'
    } else if d == 13 {
        'd'
    } else if d == 14 {
        'e'
    } else {
        'f'
    }
}

/// The hexadecimal numeral of `n` padded with leading zeros to width `w`.
pub open spec fn spec_hex_w(n: nat, w: nat) -> Seq<char>
    decreases w,
{
    if w == 0 {
        Seq::empty()
    } else {
        spec_hex_w(n / 16, (w - 1) as nat).push(spec_hex_digit(n % 16))
    }
}

fn u64_hex_chars(n: u64, w: u64) -> (v: Vec<char>)
    ensures
        v@ == spec_hex_w(n as nat, w as nat),
    decreases w,
{
    if w == 0 {
        let v: Vec<char> = Vec::new();
        proof {
            assert(v@ =~= spec_hex_w(n as nat, 0));
        }
        v
    } else {
        let mut v = u64_hex_chars(n / 16, w - 1);
        v.push(hex_digit(n % 16));
        v
    }
}

/// The hexadecimal rendering of `n` padded with leading zeros to width `w`.
pub fn u64_to_hex(n: u64, w: u64) -> (s: String)
    ensures
        s@ == spec_hex_w(n as nat, w as nat),
{
    let v = u64_hex_chars(n, w);
    chars_to_string(&v)
}

/// The numeric value of a digit string, most significant digit first.
pub open spec fn spec_digits_val(s: Seq<char>) -> nat
    decreases s.len(),
{
    if s.len() == 0 {
        0
    } else {
        spec_digits_val(s.drop_last()) * 10 + digit_val(s.last())
    }
}

/// Whether every character of `s` is an ascii digit.
pub open spec fn all_digits(s: Seq<char>) -> bool {
    forall|i: int| 0 <= i < s.len() ==> is_digit_char(#[trigger] s[i])
}

/// The number a non-empty digit string denotes, when it fits in a `u64`.
pub open spec fn spec_parse_u64(s: Seq<char>) -> Option<u64> {
    if s.len() > 0 && all_digits(s) && spec_digits_val(s) <= u64::MAX {
        Some(spec_digits_val(s) as u64)
    } else {
        None
    }
}

/// Parses a non-empty all-digit string as an unsigned number, refusing
/// anything else and any value that overflows.
pub fn parse_u64(s: &Vec<char>) -> (r: Option<u64>)
    ensures
        r == spec_parse_u64(s@),
{
    if s.len() == 0 {
        return None;
    }
    let mut acc: u64 = 0;
    let mut i: usize = 0;
    while i < s.len()
        invariant
            i <= s@.len(),
            all_digits(s@.subrange(0, i as int)),
            acc as nat == spec_digits_val(s@.subrange(0, i as int)),
        decreases s@.len() - i,
    {
        let c = s[i];
        let cu = c as u32;
        if !(48 <= cu && cu <= 57) {
            proof {
                assert(!is_digit_char(s@[i as int]));
                assert(!all_digits(s@));
            }
            return None;
        }
        let d: u64 = (cu - 48) as u64;
        if acc > (u64::MAX - d) / 10 {
            proof {
                lemma_digits_val_prefix_bound(s@, i + 1);
                assert(s@.subrange(0, (i + 1) as int).drop_last() =~= s@.subrange(0, i as int));
                assert(s@.subrange(0, (i + 1) as int).last() == s@[i as int]);
            }
            return None;
        }
        let old_acc = acc;
        acc = acc * 10 + d;
        i = i + 1;
        proof {
            assert(s@.subrange(0, i as int).drop_last() =~= s@.subrange(0, i - 1));
            assert(s@.subrange(0, i as int).last() == s@[i - 1]);
        }
    }
    proof {
        assert(s@.subrange(0, s@.len() as int) =~= s@);
    }
    Some(acc)
}

/// A longer digit prefix never denotes a smaller number.
proof fn lemma_digits_val_prefix_bound(s: Seq<char>, i: int)
    requires
        0 < i <= s.len(),
    ensures
        spec_digits_val(s.subrange(0, i)) <= spec_digits_val(s),
    decreases s.len() - i,
{
    if i == s.len() {
        assert(s.subrange(0, i) =~= s);
    } else {
        lemma_digits_val_prefix_bound(s, i + 1);
        assert(s.subrange(0, i + 1).drop_last() =~= s.subrange(0, i));
        assert(spec_digits_val(s.subrange(0, i + 1)) == spec_digits_val(s.subrange(0, i)) * 10
            + digit_val(s.subrange(0, i + 1).last()));
    }
}

/// The signed number a digit string with an optional leading minus denotes,
/// when it fits in an `i32`.
pub open spec fn spec_parse_i32(s: Seq<char>) -> Option<i32> {
    if s.len() > 0 && s[0] == '-' {
        let mag = s.drop_first();
        if mag.len() > 0 && all_digits(mag) && spec_digits_val(mag) <= 0x8000_0000 {
            Some((-(spec_digits_val(mag) as int)) as i32)
        } else {
            None
        }
    } else if s.len() > 0 && all_digits(s) && spec_digits_val(s) <= 0x7fff_ffff {
        Some(spec_digits_val(s) as i32)
    } else {
        None
    }
}

/// Parses an optionally negated digit string as a signed number.
pub fn parse_i32(s: &Vec<char>) -> (r: Option<i32>)
    ensures
        r == spec_parse_i32(s@),
{
    if s.len() > 0 && s[0] == '-' {
        let mut mag: Vec<char> = Vec::new();
        let mut i: usize = 1;
        while i < s.len()
            invariant
                1 <= i <= s@.len(),
                mag@ == s@.subrange(1, i as int),
            decreases s@.len() - i,
        {
            mag.push(s[i]);
            i = i + 1;
            proof {
                assert(mag@ =~= s@.subrange(1, i as int));
            }
        }
        proof {
            assert(mag@ =~= s@.drop_first());
        }
        match parse_u64(&mag) {
            Some(v) => {
                if v <= 0x8000_0000 {
                    Some((-(v as i64)) as i32)
                } else {
                    None
                }
            },
            None => None,
        }
    } else {
        match parse_u64(s) {
            Some(v) => {
                if v <= 0x7fff_ffff {
                    Some(v as i32)
                } else {
                    None
                }
            },
            None => None,
        }
    }
}

/// Whether `pat` occurs in `s` at position `i`.
pub open spec fn match_at(s: Seq<char>, pat: Seq<char>, i: int) -> bool {
    i + pat.len() <= s.len() && s.subrange(i, i + pat.len() as int) == pat
}

/// The rest of `s` from `i` with every occurrence of `pat` replaced by
/// `rep`, scanning left to right without overlap.
pub open spec fn spec_replace_from(s: Seq<char>, pat: Seq<char>, rep: Seq<char>, i: int) -> Seq<
    char,
>
    decreases s.len() - i,
{
    if i < 0 || i >= s.len() {
        Seq::empty()
    } else if pat.len() > 0 && match_at(s, pat, i) {
        rep + spec_replace_from(s, pat, rep, i + pat.len())
    } else {
        seq![s[i]] + spec_replace_from(s, pat, rep, i + 1)
    }
}

/// `s` with every occurrence of `pat` replaced by `rep`; `s` itself when the
/// pattern is empty.
pub open spec fn spec_replace(s: Seq<char>, pat: Seq<char>, rep: Seq<char>) -> Seq<char> {
    if pat.len() == 0 {
        s
    } else {
        spec_replace_from(s, pat, rep, 0)
    }
}

fn match_at_exec(s: &Vec<char>, pat: &Vec<char>, i: usize) -> (r: bool)
    requires
        i <= s@.len(),
    ensures
        r == match_at(s@, pat@, i as int),
{
    if pat.len() > s.len() - i {
        return false;
    }
    let n = s.len();
    let mut k: usize = 0;
    while k < pat.len()
        invariant
            n == s@.len(),
            i + pat@.len() <= s@.len(),
            i <= s@.len(),
            k <= pat@.len(),
            forall|j: int| 0 <= j < k ==> s@[i + j] == pat@[j],
        decreases pat@.len() - k,
    {
        let idx = i + k;
        if s[idx] != pat[k] {
            proof {
                assert(s@.subrange(i as int, i + pat@.len() as int)[k as int] != pat@[k as int]);
            }
            return false;
        }
        k = k + 1;
    }
    proof {
        assert(s@.subrange(i as int, i + pat@.len() as int) =~= pat@);
    }
    true
}

/// Replaces every occurrence of `pat` in `s` by `rep`, scanning left to
/// right without overlap; `s` unchanged when the pattern is empty.
pub fn replace_chars(s: &Vec<char>, pat: &Vec<char>, rep: &Vec<char>) -> (out: Vec<char>)
    ensures
        out@ == spec_replace(s@, pat@, rep@),
{
    if pat.len() == 0 {
        let mut out: Vec<char> = Vec::new();
        let mut i: usize = 0;
        while i < s.len()
            invariant
                i <= s@.len(),
                out@ == s@.subrange(0, i as int),
            decreases s@.len() - i,
        {
            out.push(s[i]);
            i = i + 1;
            proof {
                assert(out@ =~= s@.subrange(0, i as int));
            }
        }
        proof {
            assert(out@ =~= s@);
        }
        return out;
    }
    let mut out: Vec<char> = Vec::new();
    let mut i: usize = 0;
    while i < s.len()
        invariant
            pat@.len() > 0,
            i <= s@.len(),
            spec_replace_from(s@, pat@, rep@, 0) == out@ + spec_replace_from(
                s@,
                pat@,
                rep@,
                i as int,
            ),
        decreases s@.len() - i,
    {
        let ghost out0 = out@;
        if match_at_exec(s, pat, i) {
            let mut rep2 = rep.clone();
            let ghost repv = rep2@;
            out.append(&mut rep2);
            proof {
                assert(repv == rep@);
                assert(out@ == out0 + rep@);
                assert((out0 + rep@) + spec_replace_from(s@, pat@, rep@, i + pat@.len() as int)
                    =~= out0 + (rep@ + spec_replace_from(s@, pat@, rep@, i + pat@.len() as int)));
            }
            i = i + pat.len();
        } else {
            out.push(s[i]);
            proof {
                assert(out@ =~= out0 + seq![s@[i as int]]);
                assert((out0 + seq![s@[i as int]]) + spec_replace_from(s@, pat@, rep@, i + 1)
                    =~= out0 + (seq![s@[i as int]] + spec_replace_from(s@, pat@, rep@, i + 1)));
            }
            i = i + 1;
        }
    }
    proof {
        assert(out@ + Seq::<char>::empty() =~= out@);
    }
    out
}

/// Replaces every occurrence of `pat` in `s` by `rep`, as `spec_replace`
/// lays it out.
pub fn replace_str(s: &str, pat: &str, rep: &str) -> (out: String)
    ensures
        out@ == spec_replace(s@, pat@, rep@),
{
    let sv = str_to_chars(s);
    let pv = str_to_chars(pat);
    let rv = str_to_chars(rep);
    let ov = replace_chars(&sv, &pv, &rv);
    chars_to_string(&ov)
}

/// Whether `c` is whitespace, with exactly the characters `str::trim`
/// treats as such: the ascii control whitespace, the blank, and the
/// whitespace of the wider repertoire.
pub open spec fn is_space_char(c: char) -> bool {
    ||| 9 <= c as u32 <= 13
    ||| c as u32 == 32
    ||| c as u32 == 0x85
    ||| c as u32 == 0xa0
    ||| c as u32 == 0x1680
    ||| 0x2000 <= c as u32 <= 0x200a
    ||| c as u32 == 0x2028
    ||| c as u32 == 0x2029
    ||| c as u32 == 0x202f
    ||| c as u32 == 0x205f
    ||| c as u32 == 0x3000
}

/// How many whitespace characters lead `s`.
pub open spec fn spec_lead_spaces(s: Seq<char>) -> int
    decreases s.len(),
{
    if s.len() > 0 && is_space_char(s[0]) {
        1 + spec_lead_spaces(s.drop_first())
    } else {
        0
    }
}

/// How many whitespace characters end `s`.
pub open spec fn spec_tail_spaces(s: Seq<char>) -> int
    decreases s.len(),
{
    if s.len() > 0 && is_space_char(s.last()) {
        1 + spec_tail_spaces(s.drop_last())
    } else {
        0
    }
}

/// `s` without its leading and trailing whitespace.
pub open spec fn spec_trim(s: Seq<char>) -> Seq<char> {
    if spec_lead_spaces(s) == s.len() {
        Seq::empty()
    } else {
        s.subrange(spec_lead_spaces(s), s.len() - spec_tail_spaces(s))
    }
}

proof fn lemma_lead_spaces(s: Seq<char>)
    ensures
        0 <= spec_lead_spaces(s) <= s.len(),
        forall|k: int| 0 <= k < spec_lead_spaces(s) ==> is_space_char(#[trigger] s[k]),
        spec_lead_spaces(s) < s.len() ==> !is_space_char(s[spec_lead_spaces(s)]),
    decreases s.len(),
{
    if s.len() > 0 && is_space_char(s[0]) {
        lemma_lead_spaces(s.drop_first());
        let n = spec_lead_spaces(s);
        assert forall|k: int| 0 <= k < n implies is_space_char(#[trigger] s[k]) by {
            if k > 0 {
                assert(s.drop_first()[k - 1] == s[k]);
            }
        }
        if n < s.len() {
            assert(s.drop_first()[n - 1] == s[n]);
        }
    }
}

proof fn lemma_tail_spaces(s: Seq<char>)
    ensures
        0 <= spec_tail_spaces(s) <= s.len(),
        forall|k: int| s.len() - spec_tail_spaces(s) <= k < s.len() ==> is_space_char(#[trigger] s[k]),
        spec_tail_spaces(s) < s.len() ==> !is_space_char(s[s.len() - spec_tail_spaces(s) - 1]),
    decreases s.len(),
{
    if s.len() > 0 && is_space_char(s.last()) {
        lemma_tail_spaces(s.drop_last());
        let n = spec_tail_spaces(s);
        assert forall|k: int| s.len() - n <= k < s.len() implies is_space_char(#[trigger] s[k]) by {
            if k < s.len() - 1 {
                assert(s.drop_last()[k] == s[k]);
            }
        }
        if n < s.len() {
            assert(s.drop_last()[s.len() - n - 1] == s[s.len() - n - 1]);
        }
    }
}

fn is_space_exec(c: char) -> (r: bool)
    ensures
        r == is_space_char(c),
{
    let u = c as u32;
    (9 <= u && u <= 13) || u == 32 || u == 0x85 || u == 0xa0 || u == 0x1680 || (0x2000 <= u && u
        <= 0x200a) || u == 0x2028 || u == 0x2029 || u == 0x202f || u == 0x205f || u == 0x3000
}

/// `v` without its leading and trailing whitespace.
pub fn trim_chars(v: &Vec<char>) -> (r: Vec<char>)
    ensures
        r@ == spec_trim(v@),
{
    proof {
        lemma_lead_spaces(v@);
        lemma_tail_spaces(v@);
    }
    let n = v.len();
    let mut a: usize = 0;
    while a < n && is_space_exec(v[a])
        invariant
            n == v@.len(),
            a <= n,
            forall|k: int| 0 <= k < a ==> is_space_char(#[trigger] v@[k]),
            a <= spec_lead_spaces(v@),
        decreases n - a,
    {
        a = a + 1;
        proof {
            lemma_lead_spaces(v@);
            if a > spec_lead_spaces(v@) {
                assert(!is_space_char(v@[spec_lead_spaces(v@)]));
            }
        }
    }
    proof {
        lemma_lead_spaces(v@);
        if a < spec_lead_spaces(v@) {
            assert(is_space_char(v@[a as int]));
        }
        assert(a == spec_lead_spaces(v@));
    }
    if a == n {
        let r: Vec<char> = Vec::new();
        proof {
            assert(r@ =~= spec_trim(v@));
        }
        return r;
    }
    let mut b: usize = n;
    while b > a && is_space_exec(v[b - 1])
        invariant
            n == v@.len(),
            a < n,
            a == spec_lead_spaces(v@),
            a <= b <= n,
            forall|k: int| b <= k < n ==> is_space_char(#[trigger] v@[k]),
            n - b <= spec_tail_spaces(v@),
        decreases b,
    {
        b = b - 1;
        proof {
            lemma_tail_spaces(v@);
            if n - b > spec_tail_spaces(v@) {
                assert(!is_space_char(v@[n - spec_tail_spaces(v@) - 1]));
                assert(is_space_char(v@[b as int]));
            }
        }
    }
    proof {
        lemma_tail_spaces(v@);
        if n - b < spec_tail_spaces(v@) {
            assert(b >= 1);
            assert(is_space_char(v@[b - 1]));
            if b - 1 < a {
                assert(is_space_char(v@[a as int]));
            }
            assert(b > a);
        }
        assert(n - b == spec_tail_spaces(v@));
    }
    let mut r: Vec<char> = Vec::new();
    let mut i = a;
    while i < b
        invariant
            a <= i <= b <= n,
            n == v@.len(),
            r@ == v@.subrange(a as int, i as int),
        decreases b - i,
    {
        r.push(v[i]);
        i = i + 1;
        proof {
            assert(r@ =~= v@.subrange(a as int, i as int));
        }
    }
    r
}

/// The pieces of `s` split at every `sep`, scanning from `i` with `cur` the
/// piece in progress: splitting keeps empty pieces, so the pieces are one
/// more than the separators.
pub open spec fn spec_split_acc(s: Seq<char>, sep: char, i: int, cur: Seq<char>) -> Seq<Seq<char>>
    decreases s.len() - i,
{
    if i < 0 || i >= s.len() {
        seq![cur]
    } else if s[i] == sep {
        seq![cur] + spec_split_acc(s, sep, i + 1, Seq::empty())
    } else {
        spec_split_acc(s, sep, i + 1, cur.push(s[i]))
    }
}

/// The pieces of `s` split at every `sep`.
pub open spec fn spec_split(s: Seq<char>, sep: char) -> Seq<Seq<char>> {
    spec_split_acc(s, sep, 0, Seq::empty())
}

/// Splits a string at every occurrence of `sep`, exactly as `spec_split`
/// lays it out.
pub fn split_string(s: &str, sep: char) -> (r: Vec<String>)
    ensures
        r.deep_view() == spec_split(s@, sep),
{
    let chars = str_to_chars(s);
    let mut done: Vec<String> = Vec::new();
    let mut cur: Vec<char> = Vec::new();
    let mut i: usize = 0;
    while i < chars.len()
        invariant
            chars@ == s@,
            i <= s@.len(),
            spec_split(s@, sep) == done.deep_view() + spec_split_acc(s@, sep, i as int, cur@),
        decreases s@.len() - i,
    {
        let ghost done0 = done.deep_view();
        let ghost cur0 = cur@;
        if chars[i] == sep {
            done.push(chars_to_string(&cur));
            cur = Vec::new();
            proof {
                assert(done.deep_view() =~= done0.push(cur0));
                assert(spec_split_acc(s@, sep, i as int, cur0) == seq![cur0] + spec_split_acc(
                    s@,
                    sep,
                    i + 1,
                    Seq::empty(),
                ));
                assert(done0 + (seq![cur0] + spec_split_acc(s@, sep, i + 1, Seq::empty()))
                    =~= done0.push(cur0) + spec_split_acc(s@, sep, i + 1, Seq::empty()));
            }
        } else {
            cur.push(chars[i]);
            proof {
                assert(cur@ =~= cur0.push(s@[i as int]));
            }
        }
        i = i + 1;
    }
    done.push(chars_to_string(&cur));
    proof {
        assert(spec_split_acc(s@, sep, i as int, cur@) == seq![cur@]);
        assert(done.deep_view() =~= spec_split(s@, sep));
    }
    done
}

} // verus!
