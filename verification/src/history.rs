use vstd::prelude::*;

use crate::text::{all_digits, chars_to_string, is_digit_char, spec_digits_val, parse_u64, str_to_chars};

verus! {

/// What expanding one input line against the history produced.
pub enum HistoryExpansion {
    /// The line held an event designator and this is its expansion.
    Expanded(String),
    /// A designator named no event; the payload is the designator itself.
    EventNotFound(String),
    /// The line held no designator that changed it.
    Unchanged,
}

/// Whether `c` can stand in a prefix event designator: a letter, a digit or
/// an underscore.
pub open spec fn is_word_char(c: char) -> bool {
    is_digit_char(c) || (97 <= c as u32 <= 122) || (65 <= c as u32 <= 90) || c == '_'
}

/// The number of consecutive digits in `s` starting at `i`.
pub open spec fn digit_run(s: Seq<char>, i: int) -> int
    decreases s.len() - i,
{
    if 0 <= i < s.len() && is_digit_char(s[i]) {
        1 + digit_run(s, i + 1)
    } else {
        0
    }
}

/// The number of consecutive word characters in `s` starting at `i`.
pub open spec fn word_run(s: Seq<char>, i: int) -> int
    decreases s.len() - i,
{
    if 0 <= i < s.len() && is_word_char(s[i]) {
        1 + word_run(s, i + 1)
    } else {
        0
    }
}

/// Whether `p` is a prefix of `t`.
pub open spec fn prefix_of(p: Seq<char>, t: Seq<char>) -> bool {
    p.len() <= t.len() && t.subrange(0, p.len() as int) == p
}

/// The position of the newest history entry starting with `p`, if any.
pub open spec fn find_latest(hist: Seq<Seq<char>>, p: Seq<char>) -> Option<int>
    decreases hist.len(),
{
    if hist.len() == 0 {
        None
    } else if prefix_of(p, hist.last()) {
        Some(hist.len() - 1)
    } else {
        find_latest(hist.drop_last(), p)
    }
}

/// Expanding the rest of `s` from position `i`: the expanded text, or the
/// designator that named no event. A `!!` names the newest entry; `!N` the
/// Nth entry, counted from one; `!-N` the Nth newest; `!prefix` the newest
/// entry starting with the prefix. A `!` that heads no designator, and a
/// `!!` while the history is empty, stand for themselves.
pub open spec fn spec_expand_from(s: Seq<char>, hist: Seq<Seq<char>>, i: int) -> Result<
    Seq<char>,
    Seq<char>,
>
    decreases s.len() - i,
    via spec_expand_from_decreases
{
    if i < 0 || i >= s.len() {
        Ok(Seq::empty())
    } else if s[i] == '!' {
        if i + 1 < s.len() && s[i + 1] == '!' && hist.len() > 0 {
            match spec_expand_from(s, hist, i + 2) {
                Ok(t) => Ok(hist.last() + t),
                Err(e) => Err(e),
            }
        } else if i + 1 < s.len() && s[i + 1] == '-' && digit_run(s, i + 2) > 0 {
            let dl = digit_run(s, i + 2);
            let v = spec_digits_val(s.subrange(i + 2, i + 2 + dl));
            if 1 <= v <= hist.len() {
                match spec_expand_from(s, hist, i + 2 + dl) {
                    Ok(t) => Ok(hist[hist.len() - v] + t),
                    Err(e) => Err(e),
                }
            } else {
                Err(s.subrange(i, i + 2 + dl))
            }
        } else if i + 1 < s.len() && digit_run(s, i + 1) > 0 {
            let dl = digit_run(s, i + 1);
            let v = spec_digits_val(s.subrange(i + 1, i + 1 + dl));
            if 1 <= v <= hist.len() {
                match spec_expand_from(s, hist, i + 1 + dl) {
                    Ok(t) => Ok(hist[v - 1] + t),
                    Err(e) => Err(e),
                }
            } else {
                Err(s.subrange(i, i + 1 + dl))
            }
        } else if i + 1 < s.len() && word_run(s, i + 1) > 0 {
            let wl = word_run(s, i + 1);
            let p = s.subrange(i + 1, i + 1 + wl);
            match find_latest(hist, p) {
                Some(j) => match spec_expand_from(s, hist, i + 1 + wl) {
                    Ok(t) => Ok(hist[j] + t),
                    Err(e) => Err(e),
                },
                None => Err(s.subrange(i, i + 1 + wl)),
            }
        } else {
            match spec_expand_from(s, hist, i + 1) {
                Ok(t) => Ok(seq!['!'] + t),
                Err(e) => Err(e),
            }
        }
    } else {
        match spec_expand_from(s, hist, i + 1) {
            Ok(t) => Ok(seq![s[i]] + t),
            Err(e) => Err(e),
        }
    }
}

#[via_fn]
proof fn spec_expand_from_decreases(s: Seq<char>, hist: Seq<Seq<char>>, i: int) {
    lemma_digit_run_bound(s, i + 2);
    lemma_digit_run_bound(s, i + 1);
    lemma_word_run_bound(s, i + 1);
}

/// Expanding a whole line.
pub open spec fn spec_expand(s: Seq<char>, hist: Seq<Seq<char>>) -> Result<Seq<char>, Seq<char>> {
    spec_expand_from(s, hist, 0)
}

/// Text put in front of an expansion outcome.
pub open spec fn prepend(o: Seq<char>, r: Result<Seq<char>, Seq<char>>) -> Result<
    Seq<char>,
    Seq<char>,
> {
    match r {
        Ok(t) => Ok(o + t),
        Err(e) => Err(e),
    }
}

proof fn lemma_prepend_assoc(o1: Seq<char>, o2: Seq<char>, r: Result<Seq<char>, Seq<char>>)
    ensures
        prepend(o1 + o2, r) == prepend(o1, prepend(o2, r)),
{
    match r {
        Ok(t) => {
            assert((o1 + o2) + t =~= o1 + (o2 + t));
        },
        Err(e) => {},
    }
}

/// A digit run is never longer than what is left of the string.
proof fn lemma_digit_run_bound(s: Seq<char>, i: int)
    ensures
        digit_run(s, i) <= s.len() - i || digit_run(s, i) == 0,
        digit_run(s, i) >= 0,
    decreases s.len() - i,
{
    if 0 <= i < s.len() && is_digit_char(s[i]) {
        lemma_digit_run_bound(s, i + 1);
    }
}

/// A word run is never longer than what is left of the string.
proof fn lemma_word_run_bound(s: Seq<char>, i: int)
    ensures
        word_run(s, i) <= s.len() - i || word_run(s, i) == 0,
        word_run(s, i) >= 0,
    decreases s.len() - i,
{
    if 0 <= i < s.len() && is_word_char(s[i]) {
        lemma_word_run_bound(s, i + 1);
    }
}

/// Every character of a digit run is a digit.
proof fn lemma_digit_run_digits(s: Seq<char>, i: int)
    requires
        0 <= i <= s.len(),
    ensures
        all_digits(s.subrange(i, i + digit_run(s, i))),
    decreases s.len() - i,
{
    lemma_digit_run_bound(s, i);
    let n = digit_run(s, i);
    if 0 <= i < s.len() && is_digit_char(s[i]) {
        lemma_digit_run_digits(s, i + 1);
        lemma_digit_run_bound(s, i + 1);
        let sub = s.subrange(i, i + n);
        let sub1 = s.subrange(i + 1, i + 1 + digit_run(s, i + 1));
        assert forall|k: int| 0 <= k < sub.len() implies is_digit_char(#[trigger] sub[k]) by {
            if k == 0 {
                assert(sub[0] == s[i]);
            } else {
                assert(sub[k] == sub1[k - 1]);
            }
        }
    } else {
        assert(s.subrange(i, i) =~= Seq::<char>::empty());
    }
}

fn digit_run_len(s: &Vec<char>, i: usize) -> (n: usize)
    requires
        i <= s@.len(),
    ensures
        n == digit_run(s@, i as int),
        i + n <= s@.len(),
    decreases s@.len() - i,
{
    if i < s.len() {
        let c = s[i];
        let cu = c as u32;
        if 48 <= cu && cu <= 57 {
            let rest = digit_run_len(s, i + 1);
            return 1 + rest;
        }
    }
    0
}

fn word_run_len(s: &Vec<char>, i: usize) -> (n: usize)
    requires
        i <= s@.len(),
    ensures
        n == word_run(s@, i as int),
        i + n <= s@.len(),
    decreases s@.len() - i,
{
    if i < s.len() {
        let c = s[i];
        let cu = c as u32;
        if (48 <= cu && cu <= 57) || (97 <= cu && cu <= 122) || (65 <= cu && cu <= 90) || c == '_' {
            let rest = word_run_len(&s, i + 1);
            return 1 + rest;
        }
    }
    0
}

pub(crate) fn copy_range(s: &Vec<char>, from: usize, to: usize) -> (v: Vec<char>)
    requires
        from <= to <= s@.len(),
    ensures
        v@ == s@.subrange(from as int, to as int),
{
    let mut v: Vec<char> = Vec::new();
    let mut i = from;
    while i < to
        invariant
            from <= i <= to <= s@.len(),
            v@ == s@.subrange(from as int, i as int),
        decreases to - i,
    {
        v.push(s[i]);
        i = i + 1;
        proof {
            assert(v@ =~= s@.subrange(from as int, i as int));
        }
    }
    v
}

fn has_prefix(t: &String, p: &Vec<char>) -> (r: bool)
    ensures
        r == prefix_of(p@, t@),
{
    let tc = str_to_chars(t.as_str());
    if p.len() > tc.len() {
        return false;
    }
    let mut i: usize = 0;
    while i < p.len()
        invariant
            p@.len() <= tc@.len(),
            tc@ == t@,
            i <= p@.len(),
            forall|k: int| 0 <= k < i ==> t@[k] == p@[k],
        decreases p@.len() - i,
    {
        if tc[i] != p[i] {
            proof {
                assert(t@.subrange(0, p@.len() as int)[i as int] != p@[i as int]);
            }
            return false;
        }
        i = i + 1;
    }
    proof {
        assert(t@.subrange(0, p@.len() as int) =~= p@);
    }
    true
}

fn find_latest_entry(hist: &Vec<String>, p: &Vec<char>) -> (r: Option<usize>)
    ensures
        match r {
            Some(j) => find_latest(hist.deep_view(), p@) == Some(j as int) && j
                < hist.deep_view().len(),
            None => find_latest(hist.deep_view(), p@) is None,
        },
{
    let ghost h = hist.deep_view();
    let mut j = hist.len();
    proof {
        assert(h.subrange(0, j as int) =~= h);
    }
    while j > 0
        invariant
            h == hist.deep_view(),
            j <= h.len(),
            find_latest(h, p@) == find_latest(h.subrange(0, j as int), p@),
        decreases j,
    {
        j = j - 1;
        if has_prefix(&hist[j], p) {
            proof {
                let prefix = h.subrange(0, (j + 1) as int);
                assert(prefix.last() == h[j as int]);
                assert(h[j as int] == hist@[j as int]@);
                assert(prefix_of(p@, prefix.last()));
                assert(find_latest(prefix, p@) == Some(j as int));
            }
            return Some(j);
        }
        proof {
            let prefix = h.subrange(0, (j + 1) as int);
            assert(prefix.last() == hist@[j as int]@);
            assert(!prefix_of(p@, prefix.last()));
            assert(prefix.drop_last() =~= h.subrange(0, j as int));
        }
    }
    proof {
        assert(h.subrange(0, 0) =~= Seq::<Seq<char>>::empty());
    }
    None
}

/// Expands one input line against the history, designator by designator, as
/// `spec_expand` lays it out: the expansion when it changed the line, the
/// line's own text otherwise, or the first designator that named no event.
pub fn expand_line(input: &str, history: &Vec<String>) -> (r: HistoryExpansion)
    ensures
        match r {
            HistoryExpansion::Unchanged => spec_expand(input@, history.deep_view()) == Ok::<
                Seq<char>,
                Seq<char>,
            >(input@),
            HistoryExpansion::Expanded(e) => spec_expand(input@, history.deep_view()) == Ok::<
                Seq<char>,
                Seq<char>,
            >(e@) && e@ != input@,
            HistoryExpansion::EventNotFound(ev) => spec_expand(input@, history.deep_view())
                == Err::<Seq<char>, Seq<char>>(ev@),
        },
{
    let s = str_to_chars(input);
    let ghost h = history.deep_view();
    let mut out: Vec<char> = Vec::new();
    let mut i: usize = 0;
    while i < s.len()
        invariant
            s@ == input@,
            h == history.deep_view(),
            i <= s@.len(),
            spec_expand(input@, h) == prepend(out@, spec_expand_from(s@, h, i as int)),
        decreases s@.len() - i,
    {
        let ghost out0 = out@;
        let c = s[i];
        if c == '!' {
            if i + 1 < s.len() && s[i + 1] == '!' && history.len() > 0 {
                let entry = str_to_chars(history[history.len() - 1].as_str());
                let mut entry2 = entry;
                proof {
                    assert(entry2@ == h.last());
                }
                out.append(&mut entry2);
                proof {
                    lemma_prepend_assoc(out0, h.last(), spec_expand_from(s@, h, i + 2));
                    assert(prepend(
                        h.last(),
                        spec_expand_from(s@, h, i + 2),
                    ) == spec_expand_from(s@, h, i as int));
                }
                i = i + 2;
            } else {
                let neg = i + 1 < s.len() && s[i + 1] == '-';
                let dstart = if neg {
                    i + 2
                } else {
                    i + 1
                };
                let dl = if dstart <= s.len() {
                    digit_run_len(&s, dstart)
                } else {
                    0
                };
                if dl > 0 {
                    let digits = copy_range(&s, dstart, dstart + dl);
                    proof {
                        lemma_digit_run_digits(s@, dstart as int);
                        assert(all_digits(digits@));
                        assert(digits@.len() > 0);
                    }
                    let hlen = history.len();
                    let vopt = parse_u64(&digits);
                    let ghost v = spec_digits_val(digits@);
                    let hit: Option<usize> = match vopt {
                        Some(v_ex) => {
                            if neg {
                                if 1 <= v_ex && v_ex <= history.len() as u64 {
                                    Some(history.len() - (v_ex as usize))
                                } else {
                                    None
                                }
                            } else {
                                if 1 <= v_ex && v_ex <= history.len() as u64 {
                                    Some((v_ex as usize) - 1)
                                } else {
                                    None
                                }
                            }
                        },
                        None => {
                            proof {
                                assert(v > u64::MAX);
                                assert(h.len() == hlen as int);
                            }
                            None
                        },
                    };
                    match hit {
                        Some(idx) => {
                            let entry = str_to_chars(history[idx].as_str());
                            let mut entry2 = entry;
                            proof {
                                assert(entry2@ == h[idx as int]);
                            }
                            out.append(&mut entry2);
                            proof {
                                lemma_prepend_assoc(
                                    out0,
                                    h[idx as int],
                                    spec_expand_from(s@, h, dstart + dl),
                                );
                                assert(prepend(
                                    h[idx as int],
                                    spec_expand_from(s@, h, dstart + dl),
                                ) == spec_expand_from(s@, h, i as int));
                            }
                            i = dstart + dl;
                        },
                        None => {
                            let d = copy_range(&s, i, dstart + dl);
                            proof {
                                assert(spec_expand_from(s@, h, i as int) == Err::<
                                    Seq<char>,
                                    Seq<char>,
                                >(d@));
                            }
                            return HistoryExpansion::EventNotFound(chars_to_string(&d));
                        },
                    }
                } else {
                    let wl = if i + 1 <= s.len() {
                        word_run_len(&s, i + 1)
                    } else {
                        0
                    };
                    if wl > 0 {
                        let p = copy_range(&s, i + 1, i + 1 + wl);
                        match find_latest_entry(history, &p) {
                            Some(j) => {
                                let entry = str_to_chars(history[j].as_str());
                                let mut entry2 = entry;
                                proof {
                                    assert(entry2@ == h[j as int]);
                                }
                                out.append(&mut entry2);
                                proof {
                                    lemma_prepend_assoc(
                                        out0,
                                        h[j as int],
                                        spec_expand_from(s@, h, i + 1 + wl),
                                    );
                                    assert(prepend(
                                        h[j as int],
                                        spec_expand_from(s@, h, i + 1 + wl),
                                    ) == spec_expand_from(s@, h, i as int));
                                }
                                i = i + 1 + wl;
                            },
                            None => {
                                let d = copy_range(&s, i, i + 1 + wl);
                                proof {
                                    assert(spec_expand_from(s@, h, i as int) == Err::<
                                        Seq<char>,
                                        Seq<char>,
                                    >(d@));
                                }
                                return HistoryExpansion::EventNotFound(chars_to_string(&d));
                            },
                        }
                    } else {
                        out.push('!');
                        proof {
                            assert(out@ =~= out0 + seq!['!']);
                            lemma_prepend_assoc(out0, seq!['!'], spec_expand_from(s@, h, i + 1));
                            assert(prepend(seq!['!'], spec_expand_from(s@, h, i + 1))
                                == spec_expand_from(s@, h, i as int));
                        }
                        i = i + 1;
                    }
                }
            }
        } else {
            out.push(c);
            proof {
                assert(out@ =~= out0 + seq![s@[i as int]]);
                lemma_prepend_assoc(out0, seq![s@[i as int]], spec_expand_from(s@, h, i + 1));
                assert(prepend(seq![s@[i as int]], spec_expand_from(s@, h, i + 1))
                    == spec_expand_from(s@, h, i as int));
            }
            i = i + 1;
        }
    }
    proof {
        assert(spec_expand_from(s@, h, i as int) == Ok::<Seq<char>, Seq<char>>(Seq::empty()));
        assert(out@ + Seq::<char>::empty() =~= out@);
    }
    let outs = chars_to_string(&out);
    let owned = input.to_owned();
    if outs.eq(&owned) {
        HistoryExpansion::Unchanged
    } else {
        HistoryExpansion::Expanded(outs)
    }
}

/// Submitting `!!` while the history holds anything expands to exactly the
/// newest entry: the round trip of appending a line and recalling it.
pub proof fn lemma_bang_bang(s: Seq<char>, hist: Seq<Seq<char>>)
    requires
        hist.len() > 0,
        s == "!!"@,
    ensures
        spec_expand(s, hist) == Ok::<Seq<char>, Seq<char>>(hist.last()),
{
    reveal_strlit("!!");
    assert(s.len() == 2);
    assert(s[0] == '!' && s[1] == '!');
    assert(spec_expand_from(s, hist, 2) == Ok::<Seq<char>, Seq<char>>(Seq::empty()));
    assert(hist.last() + Seq::<char>::empty() =~= hist.last());
}

/// A numeric designator naming an event past the end of the history names
/// no event: `!3` against fewer than three entries misses.
pub proof fn lemma_numeric_miss(s: Seq<char>, hist: Seq<Seq<char>>)
    requires
        hist.len() < 3,
        s == "!3"@,
    ensures
        spec_expand(s, hist) == Err::<Seq<char>, Seq<char>>(s),
{
    reveal_strlit("!3");
    assert(s.len() == 2);
    assert(s[0] == '!' && s[1] == '3');
    assert(is_digit_char(s[1]));
    assert(digit_run(s, 1) == 1);
    assert(s.subrange(1, 2).drop_last() =~= Seq::<char>::empty());
    assert(s.subrange(1, 2).last() == '3');
    assert(spec_digits_val(Seq::<char>::empty()) == 0);
    assert(spec_digits_val(s.subrange(1, 2)) == spec_digits_val(s.subrange(1, 2).drop_last()) * 10
        + crate::text::digit_val(s.subrange(1, 2).last()));
    assert(crate::text::digit_val('3') == 3);
    assert(spec_digits_val(s.subrange(1, 2)) == 3);
    assert(!(s[1] == '!' && hist.len() > 0) || true);
    assert(s.subrange(0, 2) =~= s);
}

} // verus!
