//! Decimal integers and comma-separated lists as text.

use vstd::prelude::*;
use vstd::string::StrSliceExecFns;
use vstd::string::StringExecFns;

verus! {

/// The ten decimal digits, in order of value.
pub open spec fn decimal_digits() -> Seq<char> {
    seq!['0', '1', '2', '3', '4', '5', '6', '7', '8', '9']
}

pub open spec fn is_digit(c: char) -> bool {
    '0' <= c && c <= '9'
}

pub open spec fn digit_value(c: char) -> int {
    c as int - '0' as int
}

/// The decimal digits of `n`, most significant first, with no leading zeros.
pub open spec fn nat_digits(n: nat) -> Seq<char>
    decreases n,
{
    if n < 10 {
        seq![decimal_digits()[n as int]]
    } else {
        nat_digits(n / 10).push(decimal_digits()[(n % 10) as int])
    }
}

/// The decimal text of `v`: a minus sign for negative values, then its digits.
pub open spec fn decimal_of(v: int) -> Seq<char> {
    if v < 0 {
        seq!['-'] + nat_digits((-v) as nat)
    } else {
        nat_digits(v as nat)
    }
}

/// The value of a run of decimal digits, read most significant first.
pub open spec fn digits_value(s: Seq<char>) -> int
    decreases s.len(),
{
    if s.len() == 0 {
        0
    } else {
        digits_value(s.drop_last()) * 10 + digit_value(s.last())
    }
}

pub open spec fn all_digits(s: Seq<char>) -> bool {
    forall|i: int| 0 <= i < s.len() ==> is_digit(#[trigger] s[i])
}

/// Whether `s` opens with an explicit sign.
pub open spec fn has_sign(s: Seq<char>) -> bool {
    s.len() > 0 && (s[0] == '-' || s[0] == '+')
}

/// The value that `s` denotes as a base-10 integer: an optional `+` or `-`,
/// then one or more digits.
pub open spec fn signed_value(s: Seq<char>) -> int {
    if has_sign(s) && s[0] == '-' {
        -digits_value(s.drop_first())
    } else if has_sign(s) {
        digits_value(s.drop_first())
    } else {
        digits_value(s)
    }
}

/// Whether `s` has the shape of a base-10 integer.
pub open spec fn is_decimal_text(s: Seq<char>) -> bool {
    let body = if has_sign(s) { s.drop_first() } else { s };
    body.len() > 0 && all_digits(body)
}

/// `s` read as a base-10 `i32`, or `None` when it is not one or is out of range.
pub open spec fn parse_i32(s: Seq<char>) -> Option<i32> {
    if is_decimal_text(s) && i32::MIN <= signed_value(s) <= i32::MAX {
        Some(signed_value(s) as i32)
    } else {
        None
    }
}


fn append_nat_digits(out: &mut String, n: u32)
    ensures
        final(out)@ == old(out)@ + nat_digits(n as nat),
    decreases n,
{
    let digits = "0123456789";
    proof {
        reveal_strlit("0123456789");
        assert(digits@ =~= decimal_digits());
    }
    if n >= 10 {
        append_nat_digits(out, n / 10);
    }
    let d = (n % 10) as usize;
    out.append(digits.substring_char(d, d + 1));
    proof {
        assert(digits@.subrange(d as int, d + 1) =~= seq![decimal_digits()[d as int]]);
        if n < 10 {
            assert(nat_digits(n as nat) == seq![decimal_digits()[n as int]]);
        }
        assert(final(out)@ =~= old(out)@ + nat_digits(n as nat));
    }
}

/// The decimal text of `v`, as `to_string` writes it.
pub fn format_decimal(v: i32) -> (r: String)
    ensures
        r@ == decimal_of(v as int),
{
    let mut out = String::new();
    if v < 0 {
        out.append("-");
        proof {
            reveal_strlit("-");
        }
        let magnitude: u32 = if v == i32::MIN { 2147483648u32 } else { (-v) as u32 };
        append_nat_digits(&mut out, magnitude);
        proof {
            assert(out@ =~= decimal_of(v as int));
        }
    } else {
        append_nat_digits(&mut out, v as u32);
        proof {
            assert(out@ =~= decimal_of(v as int));
        }
    }
    out
}


proof fn lemma_digits_value_grows(t: Seq<char>, k: int)
    requires
        all_digits(t),
        0 <= k <= t.len(),
    ensures
        0 <= digits_value(t.subrange(0, k)) <= digits_value(t),
    decreases t.len(),
{
    if t.len() == 0 {
        assert(t.subrange(0, k) =~= t);
    } else if k == t.len() {
        assert(t.subrange(0, k) =~= t);
        lemma_digits_value_grows(t.drop_last(), k - 1);
        assert(t.drop_last().subrange(0, k - 1) =~= t.drop_last());
    } else {
        lemma_digits_value_grows(t.drop_last(), k);
        assert(t.drop_last().subrange(0, k) =~= t.subrange(0, k));
        lemma_digits_value_grows(t.drop_last(), t.len() - 1);
        assert(t.drop_last().subrange(0, t.len() - 1) =~= t.drop_last());
    }
}

/// Reads `s` as a base-10 `i32` the way `i32::from_str_radix(s, 10)` does:
/// an optional sign, then at least one digit, with a value in range.
pub fn parse_decimal(s: &str) -> (r: Option<i32>)
    ensures
        r == parse_i32(s@),
{
    let len = s.unicode_len();
    if len == 0 {
        return None;
    }
    let first = s.get_char(0);
    let negative = first == '-';
    let start: usize = if first == '-' || first == '+' { 1 } else { 0 };
    let ghost body = if has_sign(s@) { s@.drop_first() } else { s@ };
    proof {
        assert(body =~= s@.subrange(start as int, len as int));
    }
    if start == len {
        return None;
    }
    let mut i: usize = start;
    while i < len
        invariant
            start <= i <= len,
            len == s@.len(),
            first == s@[0],
            negative == (first == '-'),
            has_sign(s@) == (start == 1),
            body == (if has_sign(s@) { s@.drop_first() } else { s@ }),
            body =~= s@.subrange(start as int, len as int),
            forall|j: int| start <= j < i ==> is_digit(#[trigger] s@[j]),
        decreases len - i,
    {
        let c = s.get_char(i);
        if !('0' <= c && c <= '9') {
            proof {
                assert(!is_digit(body[i - start]));
                assert(!all_digits(body));
                assert(!is_decimal_text(s@));
            }
            return None;
        }
        i = i + 1;
    }
    assert(all_digits(body)) by {
        assert forall|j: int| 0 <= j < body.len() implies is_digit(#[trigger] body[j]) by {
            assert(body[j] == s@[j + start]);
        }
    }
    let mut acc: u64 = 0;
    i = start;
    proof {
        assert(body.subrange(0, 0) =~= Seq::<char>::empty());
    }
    while i < len
        invariant
            start <= i <= len,
            len == s@.len(),
            first == s@[0],
            negative == (first == '-'),
            has_sign(s@) == (start == 1),
            body == (if has_sign(s@) { s@.drop_first() } else { s@ }),
            body =~= s@.subrange(start as int, len as int),
            all_digits(body),
            acc == digits_value(body.subrange(0, i - start)),
            acc <= 2147483648,
        decreases len - i,
    {
        let c = s.get_char(i);
        proof {
            assert(body[i - start] == c);
            assert(is_digit(c));
        }
        let d = (c as u32 - '0' as u32) as u64;
        let next = acc * 10 + d;
        proof {
            let pre = body.subrange(0, i - start + 1);
            assert(pre.drop_last() =~= body.subrange(0, i - start));
            assert(pre.last() == c);
            assert(next == digits_value(pre));
        }
        if next > 2147483648 {
            proof {
                lemma_digits_value_grows(body, i - start + 1);
                assert(digits_value(body) > 2147483648);
                assert(first == s@[0]);
                assert(signed_value(s@) > i32::MAX || signed_value(s@) < i32::MIN);
            }
            return None;
        }
        acc = next;
        i = i + 1;
    }
    proof {
        assert(body.subrange(0, len - start) =~= body);
    }
    if negative {
        Some((-(acc as i64)) as i32)
    } else if acc > 2147483647 {
        None
    } else {
        Some(acc as i32)
    }
}


/// The pieces of `s` between commas, as `str::split(',')` yields them: empty
/// pieces are kept, and there is one piece more than there are commas.
pub open spec fn split_commas(s: Seq<char>) -> Seq<Seq<char>>
    decreases s.len(),
{
    if s.len() == 0 {
        seq![Seq::empty()]
    } else {
        let rest = split_commas(s.drop_last());
        if s.last() == ',' {
            rest.push(Seq::empty())
        } else {
            rest.update(rest.len() - 1, rest.last().push(s.last()))
        }
    }
}

/// The pieces written one after another with a comma between neighbours.
pub open spec fn join_commas(parts: Seq<Seq<char>>) -> Seq<char>
    decreases parts.len(),
{
    if parts.len() == 0 {
        Seq::empty()
    } else if parts.len() == 1 {
        parts[0]
    } else {
        join_commas(parts.drop_last()) + seq![','] + parts.last()
    }
}

/// The text of each string.
pub open spec fn texts(v: Seq<String>) -> Seq<Seq<char>> {
    v.map_values(|p: String| p@)
}

/// Writes the strings of `parts` one after another, separated by commas.
pub fn join_with_commas(parts: &Vec<String>) -> (r: String)
    ensures
        r@ == join_commas(texts(parts@)),
{
    let comma = ",";
    proof {
        reveal_strlit(",");
    }
    let mut out = String::new();
    let mut i: usize = 0;
    while i < parts.len()
        invariant
            i <= parts@.len(),
            comma@ == seq![','],
            out@ == join_commas(texts(parts@).subrange(0, i as int)),
        decreases parts@.len() - i,
    {
        let ghost before = texts(parts@).subrange(0, i as int);
        let ghost after = texts(parts@).subrange(0, i + 1);
        proof {
            assert(after.drop_last() =~= before);
            assert(after.last() == parts@[i as int]@);
        }
        if i > 0 {
            out.append(comma);
        } else {
            proof {
                assert(out@ =~= Seq::<char>::empty());
            }
        }
        out.append(parts[i].as_str());
        proof {
            assert(out@ =~= join_commas(after));
        }
        i = i + 1;
    }
    proof {
        assert(texts(parts@).subrange(0, parts@.len() as int) =~= texts(parts@));
    }
    out
}

/// Cuts `s` at every comma, keeping empty pieces, as `str::split(',')` does.
pub fn split_at_commas(s: &str) -> (r: Vec<String>)
    ensures
        texts(r@) == split_commas(s@),
{
    let len = s.unicode_len();
    let mut parts: Vec<String> = Vec::new();
    let mut start: usize = 0;
    let mut i: usize = 0;
    proof {
        assert(s@.subrange(0, 0) =~= Seq::<char>::empty());
        assert(texts(parts@).push(s@.subrange(0, 0)) =~= split_commas(s@.subrange(0, 0)));
    }
    while i < len
        invariant
            len == s@.len(),
            start <= i <= len,
            texts(parts@).push(s@.subrange(start as int, i as int)) == split_commas(s@.subrange(0, i as int)),
        decreases len - i,
    {
        let c = s.get_char(i);
        let ghost prefix = s@.subrange(0, i + 1);
        proof {
            assert(prefix.drop_last() =~= s@.subrange(0, i as int));
            assert(prefix.last() == c);
        }
        if c == ',' {
            let ghost old_texts = texts(parts@);
            let piece = String::from_str(s.substring_char(start, i));
            parts.push(piece);
            start = i + 1;
            proof {
                assert(texts(parts@) =~= old_texts.push(piece@));
                assert(s@.subrange(start as int, i + 1) =~= Seq::<char>::empty());
                assert(texts(parts@).push(s@.subrange(start as int, i + 1)) =~= split_commas(prefix));
            }
        } else {
            proof {
                let old_parts = texts(parts@).push(s@.subrange(start as int, i as int));
                assert(s@.subrange(start as int, i + 1) =~= s@.subrange(start as int, i as int).push(c));
                assert(texts(parts@).push(s@.subrange(start as int, i + 1)) =~= old_parts.update(
                    old_parts.len() - 1,
                    old_parts.last().push(c),
                ));
            }
        }
        i = i + 1;
    }
    let last = String::from_str(s.substring_char(start, len));
    parts.push(last);
    proof {
        assert(s@.subrange(0, len as int) =~= s@);
        assert(texts(parts@) =~= split_commas(s@));
    }
    parts
}


pub open spec fn has_no_comma(s: Seq<char>) -> bool {
    forall|i: int| 0 <= i < s.len() ==> #[trigger] s[i] != ','
}

proof fn lemma_split_single(p: Seq<char>)
    requires
        has_no_comma(p),
    ensures
        split_commas(p) == seq![p],
    decreases p.len(),
{
    if p.len() == 0 {
        assert(p =~= Seq::<char>::empty());
    } else {
        let q = p.drop_last();
        assert(has_no_comma(q)) by {
            assert forall|i: int| 0 <= i < q.len() implies #[trigger] q[i] != ',' by {
                assert(q[i] == p[i]);
            }
        }
        lemma_split_single(q);
        assert(p[p.len() - 1] != ',');
        assert(q.push(p.last()) =~= p);
        let rest = split_commas(q);
        assert(rest.len() == 1 && rest.last() == q);
        assert(split_commas(p) == rest.update(0, q.push(p.last())));
        assert(rest.update(0, p) =~= seq![p]);
    }
}

proof fn lemma_split_after_comma(x: Seq<char>, p: Seq<char>)
    requires
        has_no_comma(p),
    ensures
        split_commas(x + seq![','] + p) == split_commas(x).push(p),
    decreases p.len(),
{
    let s = x + seq![','] + p;
    if p.len() == 0 {
        assert(s.drop_last() =~= x);
        assert(s.last() == ',');
        assert(p =~= Seq::<char>::empty());
    } else {
        let q = p.drop_last();
        assert(has_no_comma(q)) by {
            assert forall|i: int| 0 <= i < q.len() implies #[trigger] q[i] != ',' by {
                assert(q[i] == p[i]);
            }
        }
        lemma_split_after_comma(x, q);
        assert(s.drop_last() =~= x + seq![','] + q);
        assert(s.last() == p.last());
        assert(p[p.len() - 1] != ',');
        assert(q.push(p.last()) =~= p);
        let rest = split_commas(x + seq![','] + q);
        assert(rest == split_commas(x).push(q));
        assert(split_commas(s) == rest.update(rest.len() - 1, q.push(p.last())));
        assert(rest.update(rest.len() - 1, p) =~= split_commas(x).push(p));
    }
}

/// Splitting at commas undoes joining with commas, for one or more pieces none
/// of which holds a comma.
pub proof fn lemma_split_join(parts: Seq<Seq<char>>)
    requires
        parts.len() >= 1,
        forall|i: int| 0 <= i < parts.len() ==> has_no_comma(#[trigger] parts[i]),
    ensures
        split_commas(join_commas(parts)) == parts,
    decreases parts.len(),
{
    if parts.len() == 1 {
        lemma_split_single(parts[0]);
        assert(seq![parts[0]] =~= parts);
    } else {
        let init = parts.drop_last();
        assert forall|i: int| 0 <= i < init.len() implies has_no_comma(#[trigger] init[i]) by {
            assert(init[i] == parts[i]);
        }
        lemma_split_join(init);
        assert(has_no_comma(parts[parts.len() - 1]));
        lemma_split_after_comma(join_commas(init), parts.last());
        assert(init.push(parts.last()) =~= parts);
    }
}

proof fn lemma_digit_chars(k: int)
    requires
        0 <= k < 10,
    ensures
        is_digit(decimal_digits()[k]),
        digit_value(decimal_digits()[k]) == k,
        decimal_digits()[k] != ',',
{
}

proof fn lemma_nat_digits(n: nat)
    ensures
        nat_digits(n).len() >= 1,
        all_digits(nat_digits(n)),
        has_no_comma(nat_digits(n)),
        digits_value(nat_digits(n)) == n,
    decreases n,
{
    lemma_digit_chars((n % 10) as int);
    if n < 10 {
        let d = nat_digits(n);
        assert(n % 10 == n);
        assert(d.drop_last() =~= Seq::<char>::empty());
        assert(digits_value(d.drop_last()) == 0);
        assert(digits_value(d) == n);
    } else {
        lemma_nat_digits(n / 10);
        let d = nat_digits(n);
        assert(d.drop_last() =~= nat_digits(n / 10));
        assert(d.last() == decimal_digits()[(n % 10) as int]);
        assert((n / 10) * 10 + n % 10 == n) by (nonlinear_arith);
        assert(digits_value(d) == digits_value(nat_digits(n / 10)) * 10 + (n % 10));
        assert(has_no_comma(d)) by {
            assert forall|i: int| 0 <= i < d.len() implies #[trigger] d[i] != ',' by {
                if i < d.len() - 1 {
                    assert(d[i] == nat_digits(n / 10)[i]);
                }
            }
        }
        assert(all_digits(d)) by {
            assert forall|i: int| 0 <= i < d.len() implies is_digit(#[trigger] d[i]) by {
                if i < d.len() - 1 {
                    assert(d[i] == nat_digits(n / 10)[i]);
                }
            }
        }
    }
}

/// Reading back the decimal text of an `i32` gives the same value.
pub proof fn lemma_parse_decimal_of(v: i32)
    ensures
        parse_i32(decimal_of(v as int)) == Some(v),
        has_no_comma(decimal_of(v as int)),
{
    let t = decimal_of(v as int);
    if v < 0 {
        let n = (-v) as nat;
        lemma_nat_digits(n);
        assert(t.drop_first() =~= nat_digits(n));
        assert(has_sign(t));
        assert(has_no_comma(t)) by {
            assert forall|i: int| 0 <= i < t.len() implies #[trigger] t[i] != ',' by {
                if i > 0 {
                    assert(t[i] == nat_digits(n)[i - 1]);
                }
            }
        }
    } else {
        lemma_nat_digits(v as nat);
        assert(is_digit(t[0]));
        assert(!has_sign(t));
    }
}

} // verus!
