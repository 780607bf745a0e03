//! Percent-encoding of query components and assembly of query strings.

use vstd::prelude::*;
use vstd::string::StringSliceAdditionalSpecFns;
use vstd::string::StringExecFns;
use crate::text::push_char;

verus! {

/// Bytes that a query component keeps as they are: ASCII letters and digits
/// and `*`, `-`, `.`, `_`.
pub open spec fn byte_unreserved(b: u8) -> bool {
    (48 <= b && b <= 57) || (65 <= b && b <= 90) || (97 <= b && b <= 122) || b == 42 || b == 45
        || b == 46 || b == 95
}

/// Upper-case hexadecimal digit for a value below sixteen.
pub open spec fn hex_digit(n: u8) -> char {
    if n < 10 {
        (48 + n) as char
    } else {
        (55 + n) as char
    }
}

/// The three characters `%HH` that stand for one byte.
pub open spec fn escaped_byte(b: u8) -> Seq<char> {
    seq!['%', hex_digit(b / 16), hex_digit(b % 16)]
}

/// The text that stands for one byte in a query component.
pub open spec fn encoded_byte(b: u8) -> Seq<char> {
    if byte_unreserved(b) {
        seq![b as char]
    } else {
        escaped_byte(b)
    }
}

/// Percent-encoding of a byte string, one byte after another.
pub open spec fn percent_encoded(bs: Seq<u8>) -> Seq<char>
    decreases bs.len(),
{
    if bs.len() == 0 {
        Seq::empty()
    } else {
        encoded_byte(bs[0]) + percent_encoded(bs.drop_first())
    }
}

/// Value of a hexadecimal digit (either case); zero for any other character.
pub open spec fn hex_value(c: char) -> u8 {
    if '0' <= c && c <= '9' {
        (c as u8 - 48) as u8
    } else if 'A' <= c && c <= 'F' {
        (c as u8 - 55) as u8
    } else if 'a' <= c && c <= 'f' {
        (c as u8 - 87) as u8
    } else {
        0
    }
}

/// Percent-decoding: `%HH` gives the byte `HH`, any other character its own code.
pub open spec fn percent_decoded(cs: Seq<char>) -> Seq<u8>
    decreases cs.len(),
{
    if cs.len() == 0 {
        Seq::empty()
    } else if cs[0] == '%' && cs.len() >= 3 {
        seq![(hex_value(cs[1]) * 16 + hex_value(cs[2])) as u8] + percent_decoded(cs.skip(3))
    } else {
        seq![cs[0] as u8] + percent_decoded(cs.drop_first())
    }
}

/// The `key=value` text of one query pair.
pub open spec fn pair_text(p: (Seq<u8>, Seq<u8>)) -> Seq<char> {
    percent_encoded(p.0) + seq!['='] + percent_encoded(p.1)
}

/// The pairs joined by `&`, in the order given.
pub open spec fn query_text(pairs: Seq<(Seq<u8>, Seq<u8>)>) -> Seq<char>
    decreases pairs.len(),
{
    if pairs.len() == 0 {
        Seq::empty()
    } else if pairs.len() == 1 {
        pair_text(pairs[0])
    } else {
        query_text(pairs.drop_last()) + seq!['&'] + pair_text(pairs.last())
    }
}

/// The UTF-8 bytes of each key and value of a query.
pub open spec fn query_bytes(q: Seq<(&str, &str)>) -> Seq<(Seq<u8>, Seq<u8>)> {
    q.map_values(|p: (&str, &str)| (p.0.spec_bytes(), p.1.spec_bytes()))
}

/// Encoding one more byte appends that byte's text.
pub proof fn lemma_encoded_push(bs: Seq<u8>, b: u8)
    ensures
        percent_encoded(bs.push(b)) == percent_encoded(bs) + encoded_byte(b),
    decreases bs.len(),
{
    if bs.len() == 0 {
        assert(bs.push(b).drop_first() =~= Seq::<u8>::empty());
        assert(percent_encoded(Seq::<u8>::empty()) =~= Seq::<char>::empty());
        assert(percent_encoded(bs.push(b)) =~= encoded_byte(b));
    } else {
        assert(bs.push(b).drop_first() =~= bs.drop_first().push(b));
        lemma_encoded_push(bs.drop_first(), b);
        assert(percent_encoded(bs.push(b)) =~= percent_encoded(bs) + encoded_byte(b));
    }
}

/// Relies on url's `percent_encoding::percent_encode_byte`: the text `%HH`,
/// with `HH` the byte in upper-case hexadecimal.
#[verifier::external_body]
fn escape_byte(b: u8) -> (r: &'static str)
    ensures
        r@ == escaped_byte(b),
{
    url::percent_encoding::percent_encode_byte(b)
}

/// Percent-encodes one query component: letters, digits and `*-._` stay,
/// every other byte of its UTF-8 form (the space too) becomes `%HH`.
pub fn encode_component(s: &str) -> (r: String)
    ensures
        r@ == percent_encoded(s.spec_bytes()),
{
    let bytes = s.as_bytes();
    let mut r = String::new();
    let mut i: usize = 0;
    while i < bytes.len()
        invariant
            bytes@ == s.spec_bytes(),
            0 <= i <= bytes@.len(),
            r@ == percent_encoded(bytes@.take(i as int)),
        decreases bytes@.len() - i,
    {
        let b = bytes[i];
        proof {
            assert(bytes@.take(i + 1) =~= bytes@.take(i as int).push(b));
            lemma_encoded_push(bytes@.take(i as int), b);
        }
        if (48 <= b && b <= 57) || (65 <= b && b <= 90) || (97 <= b && b <= 122) || b == 42 || b
            == 45 || b == 46 || b == 95 {
            push_char(&mut r, b as char);
        } else {
            r.append(escape_byte(b));
        }
        i = i + 1;
    }
    assert(bytes@.take(bytes@.len() as int) =~= bytes@);
    r
}

/// A hexadecimal digit reads back as its value.
pub proof fn lemma_hex_round_trip(n: u8)
    requires
        n < 16,
    ensures
        hex_value(hex_digit(n)) == n,
{
}

/// A percent-encoded component holds neither `&` nor `=`, and percent-decoding
/// gives back the bytes it was made from.
pub proof fn lemma_component_round_trip(bs: Seq<u8>)
    ensures
        percent_decoded(percent_encoded(bs)) == bs,
        !percent_encoded(bs).contains('&'),
        !percent_encoded(bs).contains('='),
    decreases bs.len(),
{
    if bs.len() > 0 {
        let b = bs[0];
        let rest = percent_encoded(bs.drop_first());
        lemma_component_round_trip(bs.drop_first());
        let e = encoded_byte(b) + rest;
        if byte_unreserved(b) {
            assert(e.drop_first() =~= rest);
        } else {
            lemma_hex_round_trip(b / 16);
            lemma_hex_round_trip(b % 16);
            assert(e.skip(3) =~= rest);
        }
        assert(bs =~= seq![b] + bs.drop_first());
        assert forall|c: char| e.contains(c) implies c != '&' && c != '=' by {
            let k = choose|k: int| 0 <= k < e.len() && e[k] == c;
            if k >= encoded_byte(b).len() {
                assert(rest[k - encoded_byte(b).len()] == c);
            }
        }
    }
}

/// Index of the last `c` in `cs`, or -1 where there is none.
pub open spec fn last_index(cs: Seq<char>, c: char) -> int
    decreases cs.len(),
{
    if cs.len() == 0 {
        -1
    } else if cs.last() == c {
        cs.len() - 1
    } else {
        last_index(cs.drop_last(), c)
    }
}

/// Index of the first `c` in `cs`, or the length where there is none.
pub open spec fn first_index(cs: Seq<char>, c: char) -> int
    decreases cs.len(),
{
    if cs.len() == 0 {
        0
    } else if cs[0] == c {
        0
    } else {
        1 + first_index(cs.drop_first(), c)
    }
}

/// Reads one `key=value` piece: split at its first `=`, both sides
/// percent-decoded.
pub open spec fn read_pair(cs: Seq<char>) -> (Seq<u8>, Seq<u8>) {
    let j = first_index(cs, '=');
    if j >= cs.len() {
        (percent_decoded(cs), Seq::empty())
    } else {
        (percent_decoded(cs.take(j)), percent_decoded(cs.skip(j + 1)))
    }
}

/// Reads a query text back into its pairs: the pieces between `&`, in order.
pub open spec fn read_query(cs: Seq<char>) -> Seq<(Seq<u8>, Seq<u8>)>
    decreases cs.len(),
{
    if cs.len() == 0 {
        Seq::empty()
    } else {
        let k = last_index(cs, '&');
        if k < 0 || k >= cs.len() {
            seq![read_pair(cs)]
        } else {
            read_query(cs.take(k)) + seq![read_pair(cs.skip(k + 1))]
        }
    }
}

proof fn lemma_last_index_after(a: Seq<char>, s: Seq<char>, c: char)
    requires
        !s.contains(c),
    ensures
        last_index(a + seq![c] + s, c) == a.len(),
        last_index(s, c) == -1,
    decreases s.len(),
{
    let t = a + seq![c] + s;
    if s.len() == 0 {
        assert(t.last() == c);
    } else {
        assert(t.last() == s.last());
        assert(t.drop_last() =~= a + seq![c] + s.drop_last());
        assert(s.drop_last().len() < s.len());
        assert forall|x: char| s.drop_last().contains(x) implies s.contains(x) by {
            let k = choose|k: int| 0 <= k < s.drop_last().len() && s.drop_last()[k] == x;
            assert(s[k] == x);
        }
        assert(!s.contains(s.last()) || s.last() != c) by {
            assert(s[s.len() - 1] == s.last());
        }
        lemma_last_index_after(a, s.drop_last(), c);
    }
}

proof fn lemma_first_index_after(a: Seq<char>, s: Seq<char>, c: char)
    requires
        !a.contains(c),
    ensures
        first_index(a + seq![c] + s, c) == a.len(),
    decreases a.len(),
{
    let t = a + seq![c] + s;
    if a.len() > 0 {
        assert(a[0] != c) by {
            assert(a.contains(a[0]));
        }
        assert(t.drop_first() =~= a.drop_first() + seq![c] + s);
        assert forall|x: char| a.drop_first().contains(x) implies a.contains(x) by {
            let k = choose|k: int| 0 <= k < a.drop_first().len() && a.drop_first()[k] == x;
            assert(a[k + 1] == x);
        }
        lemma_first_index_after(a.drop_first(), s, c);
    } else {
        assert(t[0] == c);
    }
}

proof fn lemma_pair_round_trip(p: (Seq<u8>, Seq<u8>))
    ensures
        read_pair(pair_text(p)) == p,
        !pair_text(p).contains('&'),
{
    let k = percent_encoded(p.0);
    let v = percent_encoded(p.1);
    lemma_component_round_trip(p.0);
    lemma_component_round_trip(p.1);
    lemma_first_index_after(k, v, '=');
    let t = pair_text(p);
    assert(t.take(k.len() as int) =~= k);
    assert(t.skip(k.len() as int + 1) =~= v);
    assert forall|x: char| t.contains(x) implies x != '&' by {
        let i = choose|i: int| 0 <= i < t.len() && t[i] == x;
        if i < k.len() {
            assert(k[i] == x);
        } else if i > k.len() {
            assert(v[i - k.len() - 1] == x);
        }
    }
}

/// Reading a query text back gives the pairs it was made from, in their
/// order: each key and value decodes to the bytes it was encoded from.
pub proof fn law_query_round_trip(pairs: Seq<(Seq<u8>, Seq<u8>)>)
    ensures
        read_query(query_text(pairs)) == pairs,
    decreases pairs.len(),
{
    if pairs.len() == 1 {
        let t = pair_text(pairs[0]);
        lemma_pair_round_trip(pairs[0]);
        lemma_last_index_after(Seq::empty(), t, '&');
        assert(t.len() > 0);
        assert(read_query(t) =~= seq![pairs[0]]);
        assert(pairs =~= seq![pairs[0]]);
    } else if pairs.len() > 1 {
        let a = query_text(pairs.drop_last());
        let t = pair_text(pairs.last());
        lemma_pair_round_trip(pairs.last());
        lemma_last_index_after(a, t, '&');
        law_query_round_trip(pairs.drop_last());
        let whole = a + seq!['&'] + t;
        assert(whole.take(a.len() as int) =~= a);
        assert(whole.skip(a.len() as int + 1) =~= t);
        assert(pairs =~= pairs.drop_last() + seq![pairs.last()]);
    }
}

/// Builds the query text: each key and value percent-encoded, each pair as
/// `key=value`, the pairs joined by `&` in the order given.
#[verifier::rlimit(40)]
pub fn make_query(query: &[(&str, &str)]) -> (r: String)
    ensures
        r@ == query_text(query_bytes(query@)),
{
    let mut r = String::new();
    let mut i: usize = 0;
    while i < query.len()
        invariant
            0 <= i <= query@.len(),
            r@ == query_text(query_bytes(query@).take(i as int)),
        decreases query@.len() - i,
    {
        let (key, value) = query[i];
        let pairs = Ghost(query_bytes(query@));
        proof {
            let t = pairs@.take(i + 1);
            assert(t.drop_last() =~= pairs@.take(i as int));
            assert(t.last() == pairs@[i as int]);
        }
        if i > 0 {
            push_char(&mut r, '&');
        }
        let k = encode_component(key);
        let v = encode_component(value);
        r.append(k.as_str());
        push_char(&mut r, '=');
        r.append(v.as_str());
        proof {
            let t = pairs@.take(i + 1);
            if i == 0 {
                assert(pairs@.take(0) =~= Seq::<(Seq<u8>, Seq<u8>)>::empty());
            }
            assert(r@ =~= query_text(t));
        }
        i = i + 1;
    }
    assert(query_bytes(query@).take(query@.len() as int) =~= query_bytes(query@));
    r
}

} // verus!
