use vstd::prelude::*;
use crate::language::text::{is_digit_char, decimal_value, push_char, text, int_decimal, push_decimal_i64};
use crate::language::parser::{sign_stripped, all_digits};
use crate::language::interpreter::run::strings_view;

verus! {

/// Whether `s` is the text of a whole number from 0 to `max` as the
/// parsing of an unsigned integer accepts it: an optional `+`, then one or
/// more ASCII digits.
pub open spec fn is_uint_text(s: Seq<char>, max: int) -> bool {
    let d = sign_stripped(s);
    &&& d.len() > 0
    &&& all_digits(d)
    &&& decimal_value(d) <= max
}

/// The pieces of `s` between dots, as splitting at `'.'` gives them, empty
/// pieces included.
pub open spec fn split_dots(s: Seq<char>) -> Seq<Seq<char>>
    decreases s.len(),
{
    if s.len() == 0 {
        seq![Seq::empty()]
    } else {
        let rest = split_dots(s.drop_last());
        if s.last() == '.' {
            rest.push(Seq::empty())
        } else {
            rest.update(rest.len() - 1, rest.last().push(s.last()))
        }
    }
}

/// The index of the first `c` in `s`, if any.
#[verifier::opaque]
pub open spec fn first_index(s: Seq<char>, c: char) -> Option<int> {
    if exists|i: int| 0 <= i < s.len() && s[i] == c {
        Some(choose|i: int| 0 <= i < s.len() && s[i] == c && forall|j: int| 0 <= j < i ==> s[j] != c)
    } else {
        None
    }
}

/// Whether `s` is an IPv4 address, optionally followed by `:` and a port:
/// before the first `:`, four pieces between dots, each a number from 0
/// to 255; after it, a number from 0 to 65535.
pub open spec fn ip_valid(s: Seq<char>) -> bool {
    &&& split_dots(ip_part(s)).len() == 4
    &&& forall|k: int| 0 <= k < 4 ==> is_uint_text(#[trigger] split_dots(ip_part(s))[k], 255)
    &&& port_part(s) matches Some(p) ==> is_uint_text(p, 65535)
}

/// What comes before the first `:`, or all of `s`.
pub open spec fn ip_part(s: Seq<char>) -> Seq<char> {
    match first_index(s, ':') {
        Some(i) => s.subrange(0, i),
        None => s,
    }
}

/// What comes after the first `:`, if there is one.
pub open spec fn port_part(s: Seq<char>) -> Option<Seq<char>> {
    match first_index(s, ':') {
        Some(i) => Some(s.subrange(i + 1, s.len() as int)),
        None => None,
    }
}

/// The text a plugin gives back for a yes-or-no answer.
pub open spec fn bool_text(b: bool) -> Seq<char> {
    if b { "true"@ } else { "false"@ }
}

/// There is always at least one piece.
proof fn lemma_split_dots_len(s: Seq<char>)
    ensures
        split_dots(s).len() >= 1,
    decreases s.len(),
{
    if s.len() > 0 {
        lemma_split_dots_len(s.drop_last());
    }
}

/// `"true"` or `"false"`.
fn bool_string(b: bool) -> (r: String)
    ensures
        r@ == bool_text(b),
{
    if b { text("true") } else { text("false") }
}

/// Whether characters `start..end` of `s` are the text of a number from 0
/// to `max` (see `is_uint_text`).
fn uint_text_in(s: &str, start: usize, end: usize, max: u64) -> (r: bool)
    requires
        start <= end <= s@.len(),
        max <= 65535,
    ensures
        r == is_uint_text(s@.subrange(start as int, end as int), max as int),
{
    let ghost whole = s@.subrange(start as int, end as int);
    let first: usize = if start < end && s.get_char(start) == '+' { start + 1 } else { start };
    let ghost d = sign_stripped(whole);
    assert(d =~= s@.subrange(first as int, end as int));
    if first == end {
        return false;
    }
    let mut value: u64 = 0;
    let mut i: usize = first;
    while i < end
        invariant
            first <= i <= end,
            end <= s@.len(),
            max <= 65535,
            d == s@.subrange(first as int, end as int),
            d == sign_stripped(s@.subrange(start as int, end as int)),
            forall|k: int| first <= k < i ==> is_digit_char(#[trigger] s@[k]),
            ({
                let pre = s@.subrange(first as int, i as int);
                &&& decimal_value(pre) <= max ==> value == decimal_value(pre)
                &&& decimal_value(pre) > max ==> value > max
                &&& value <= 655359
                &&& decimal_value(pre) >= 0
            }),
        decreases end - i,
    {
        let c = s.get_char(i);
        if !(c >= '0' && c <= '9') {
            proof {
                let k = (i - first) as int;
                assert(d[k] == s@[i as int]);
                assert(!all_digits(d));
            }
            return false;
        }
        let ghost pre = s@.subrange(first as int, i as int);
        let ghost pre2 = s@.subrange(first as int, i + 1);
        assert(pre2.drop_last() =~= pre);
        assert(pre2.last() == c);
        let dv = (c as u32 - '0' as u32) as u64;
        if value <= max {
            value = value * 10 + dv;
        }
        i = i + 1;
    }
    proof {
        assert(s@.subrange(first as int, end as int) =~= d);
        assert forall|k: int| 0 <= k < d.len() implies is_digit_char(#[trigger] d[k]) by {
            assert(d[k] == s@[first + k]);
        }
    }
    value <= max
}

/// The pieces of characters `start..end` of `s` between dots (see
/// `split_dots`).
fn split_dots_in(s: &str, start: usize, end: usize) -> (r: Vec<String>)
    requires
        start <= end <= s@.len(),
    ensures
        strings_view(r@) == split_dots(s@.subrange(start as int, end as int)),
{
    let mut parts: Vec<String> = Vec::new();
    let mut cur = String::new();
    let mut i: usize = start;
    proof {
        assert(s@.subrange(start as int, start as int) =~= Seq::<char>::empty());
        assert(strings_view(parts@).push(cur@) =~= seq![Seq::<char>::empty()]);
    }
    while i < end
        invariant
            start <= i <= end,
            end <= s@.len(),
            strings_view(parts@).push(cur@) == split_dots(s@.subrange(start as int, i as int)),
        decreases end - i,
    {
        let c = s.get_char(i);
        let ghost before = s@.subrange(start as int, i as int);
        let ghost after = s@.subrange(start as int, i + 1);
        proof {
            assert(after.drop_last() =~= before);
            assert(after.last() == c);
        }
        if c == '.' {
            let done = cur;
            parts.push(done);
            cur = String::new();
            proof {
                assert(strings_view(parts@).push(cur@) =~= split_dots(before).push(Seq::<char>::empty()));
            }
        } else {
            let ghost pv = strings_view(parts@);
            push_char(&mut cur, c);
            proof {
                assert(strings_view(parts@).push(cur@) =~= split_dots(before).update(split_dots(before).len() - 1, split_dots(before).last().push(c)));
            }
        }
        i = i + 1;
    }
    parts.push(cur);
    proof {
        assert(strings_view(parts@) =~= split_dots(s@.subrange(start as int, end as int)));
    }
    parts
}

/// A number drawn from `min..=max` by a `rand::rngs::StdRng` that
/// `SeedableRng::try_from_os_rng` seeds from the system, through
/// `Rng::random_range`. The contract claims only that a drawn number lies
/// in the range, as the crate documents; which one comes is chance. `None`
/// when the system cannot give a seed (the crate's error). The crate
/// panics on an empty range, which `requires` leaves out.
#[verifier::external_body]
fn random_between(min: i32, max: i32) -> (r: Option<i32>)
    requires
        min <= max,
    ensures
        r matches Some(v) ==> min <= v <= max,
{
    match <rand::rngs::StdRng as rand::SeedableRng>::try_from_os_rng() {
        Ok(mut g) => Some(rand::Rng::random_range(&mut g, min..=max)),
        Err(_) => None,
    }
}

/// A random whole number from `min` to `max`, as decimal text; an error
/// when the system gives no seed for the generator.
pub fn random(min: i32, max: i32) -> (r: Result<String, String>)
    requires
        min <= max,
    ensures
        r matches Ok(t) ==> exists|v: int| min <= v <= max && t@ == int_decimal(v),
        r matches Err(e) ==> e@ == "Failed to seed the random number generator"@,
{
    match random_between(min, max) {
        Some(v) => {
            let mut t = String::new();
            push_decimal_i64(&mut t, v as i64);
            Ok(t)
        },
        None => Err(text("Failed to seed the random number generator")),
    }
}

/// Whether an address has both an `@` and a dot, as `"true"` or
/// `"false"`.
pub fn is_email_valid(email: String) -> (r: Result<String, String>)
    ensures
        r matches Ok(t) && t@ == bool_text(email@.contains('@') && email@.contains('.')),
{
    let n = email.unicode_len();
    let mut at = false;
    let mut dot = false;
    let mut i: usize = 0;
    while i < n
        invariant
            i <= n,
            n == email@.len(),
            at == exists|k: int| 0 <= k < i && email@[k] == '@',
            dot == exists|k: int| 0 <= k < i && email@[k] == '.',
        decreases n - i,
    {
        let c = email.as_str().get_char(i);
        if c == '@' {
            at = true;
        }
        if c == '.' {
            dot = true;
        }
        proof {
            if at {
                if email@[i as int] != '@' {
                    let k = choose|k: int| 0 <= k < i && email@[k] == '@';
                    assert(0 <= k < i + 1 && email@[k] == '@');
                }
            }
            if dot {
                if email@[i as int] != '.' {
                    let k = choose|k: int| 0 <= k < i && email@[k] == '.';
                    assert(0 <= k < i + 1 && email@[k] == '.');
                }
            }
        }
        i = i + 1;
    }
    Ok(bool_string(at && dot))
}

/// Whether an address is an IPv4 address with an optional port (see
/// `ip_valid`), as `"true"` or `"false"`.
pub fn is_ip_valid(ip: String) -> (r: Result<String, String>)
    ensures
        r matches Ok(t) && t@ == bool_text(ip_valid(ip@)),
{
    let s = ip.as_str();
    let n = s.unicode_len();
    let mut idx: usize = 0;
    while idx < n && s.get_char(idx) != ':'
        invariant
            idx <= n,
            n == s@.len(),
            forall|j: int| 0 <= j < idx ==> s@[j] != ':',
        decreases n - idx,
    {
        idx = idx + 1;
    }
    proof {
        reveal(first_index);
        if idx < n {
            let c = choose|i: int| 0 <= i < s@.len() && s@[i] == ':' && forall|j: int| 0 <= j < i ==> s@[j] != ':';
            if c < idx {
                assert(s@[c] != ':');
            }
            if c > idx {
                assert(s@[idx as int] != ':');
            }
            assert(first_index(s@, ':') == Some(idx as int));
        } else {
            assert(first_index(s@, ':') is None);
            assert(s@.subrange(0, n as int) =~= s@);
        }
    }
    let parts = split_dots_in(s, 0, idx);
    let ghost pv = strings_view(parts@);
    if parts.len() != 4 {
        return Ok(bool_string(false));
    }
    let mut k: usize = 0;
    while k < 4
        invariant
            k <= 4,
            parts@.len() == 4,
            pv == strings_view(parts@),
            pv == split_dots(s@.subrange(0, idx as int)),
            idx <= n,
            n == s@.len(),
            s@ == ip@,
            first_index(s@, ':') == (if idx < n { Some(idx as int) } else { None }),
            forall|j: int| 0 <= j < k ==> is_uint_text(#[trigger] pv[j], 255),
        decreases 4 - k,
    {
        let part = parts[k].as_str();
        let ok = uint_text_in(part, 0, part.unicode_len(), 255);
        proof {
            assert(part@.subrange(0, part@.len() as int) =~= part@);
            assert(pv[k as int] == part@);
        }
        if !ok {
            proof {
                assert(s@.subrange(0, n as int) =~= s@);
                let ipart = ip_part(s@);
                assert(split_dots(ipart) == pv);
                assert(!is_uint_text(pv[k as int], 255));
                assert(!ip_valid(s@)) by {
                    if ip_valid(s@) {
                        assert(is_uint_text(split_dots(ipart)[k as int], 255));
                    }
                }
            }
            return Ok(bool_string(false));
        }
        k = k + 1;
    }
    if idx < n {
        let ok = uint_text_in(s, idx + 1, n, 65535);
        return Ok(bool_string(ok));
    }
    Ok(bool_string(true))
}

} // verus!
