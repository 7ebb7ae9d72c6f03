use vstd::prelude::*;
use vstd::string::*;
use vstd::utf8::{encode_utf8, decode_utf8, is_ascii_chars};
use vstd::std_specs::hash::obeys_key_model;
use vstd::std_specs::iter::{IteratorSpec, VerusForLoopWrapper};
use std::collections::HashMap;
use url::form_urlencoded::Serializer;
use crypto::md5::Md5;
use crypto::digest::Digest;

verus! {

broadcast use vstd::std_specs::hash::group_hash_axioms;

/// Returns the string at `index` of `strings`, or `None` when the index is
/// past the end.
pub fn string_at_index(strings: &Vec<String>, index: usize) -> (r: Option<String>)
    ensures
        index >= strings@.len() ==> r is None,
        index < strings@.len() ==> r == Some(strings@[index as int]),
{
    if index >= strings.len() {
        return None;
    }
    Some(strings[index].clone())
}

// ---------------------------------------------------------------------------
// Upper-casing

/// What `char::to_uppercase` yields for `c`.
pub uninterp spec fn uppercase_mapping(c: char) -> Seq<char>;

/// The uppercase form of `c`: an ASCII lowercase letter becomes its capital,
/// any other ASCII character has no uppercase mapping and stays itself, and
/// beyond ASCII it is the Unicode mapping.
pub open spec fn upper_of(c: char) -> Seq<char> {
    if 'a' <= c <= 'z' {
        seq![((c as int) - 32) as char]
    } else if (c as int) < 128 {
        seq![c]
    } else {
        uppercase_mapping(c)
    }
}

/// `char::to_uppercase`, collected into a `String`. Trusted: the standard
/// library yields the Unicode uppercase mapping, which for ASCII is the
/// capital of a lowercase letter and the character itself otherwise.
#[verifier::external_body]
fn char_to_uppercase(c: char) -> (r: String)
    ensures
        'a' <= c <= 'z' ==> r@ == seq![((c as int) - 32) as char],
        !('a' <= c <= 'z') && (c as int) < 128 ==> r@ == seq![c],
        (c as int) >= 128 ==> r@ == uppercase_mapping(c),
{
    c.to_uppercase().collect::<String>()
}

/// `s` with its first character upper-cased; the empty string stays empty.
pub open spec fn capitalized(s: Seq<char>) -> Seq<char> {
    if s.len() == 0 {
        Seq::empty()
    } else {
        upper_of(s[0]) + s.skip(1)
    }
}

/// Upper-cases the first character of `s` and keeps the rest.
pub fn capitalize(s: &str) -> (r: String)
    ensures
        r@ == capitalized(s@),
{
    let n = s.unicode_len();
    if n == 0 {
        return String::new();
    }
    let first = s.get_char(0);
    let up = char_to_uppercase(first);
    let rest = s.substring_char(1, n);
    let r = up.concat(rest);
    assert(s@.subrange(1, n as int) =~= s@.skip(1));
    r
}

// ---------------------------------------------------------------------------
// application/x-www-form-urlencoded

/// Upper-case hexadecimal digit of `n < 16`.
pub open spec fn hex_upper(n: int) -> char {
    if n < 10 { (48 + n) as char } else { (55 + n) as char }
}

/// A byte that the form encoding keeps as it is.
pub open spec fn form_unchanged(b: u8) -> bool {
    b == 42 || b == 45 || b == 46 || (48 <= b <= 57) || (65 <= b <= 90) || b == 95 || (97 <= b <= 122)
}

/// The form encoding of one byte: `*-._`, digits and letters stay, a space
/// becomes `+`, anything else becomes `%XX` in upper-case hex.
pub open spec fn form_byte(b: u8) -> Seq<char> {
    if form_unchanged(b) {
        seq![b as char]
    } else if b == 32 {
        seq!['+']
    } else {
        seq!['%', hex_upper(b as int / 16), hex_upper(b as int % 16)]
    }
}

/// The form encoding of a byte string.
pub open spec fn form_bytes(bs: Seq<u8>) -> Seq<char>
    decreases bs.len(),
{
    if bs.len() == 0 {
        Seq::empty()
    } else {
        form_byte(bs[0]) + form_bytes(bs.drop_first())
    }
}

/// The form encoding of a string: that of its UTF-8 bytes.
pub open spec fn form_component(s: Seq<char>) -> Seq<char> {
    form_bytes(encode_utf8(s))
}

/// `name=value`, both form-encoded.
pub open spec fn form_pair(name: Seq<char>, value: Seq<char>) -> Seq<char> {
    form_component(name) + seq!['='] + form_component(value)
}

/// The encoded pairs in order, joined by `&`.
pub open spec fn form_pairs(pairs: Seq<(Seq<char>, Seq<char>)>) -> Seq<char>
    decreases pairs.len(),
{
    if pairs.len() == 0 {
        Seq::empty()
    } else if pairs.len() == 1 {
        form_pair(pairs[0].0, pairs[0].1)
    } else {
        form_pairs(pairs.drop_last()) + seq!['&'] + form_pair(pairs.last().0, pairs.last().1)
    }
}

/// The views of a sequence of string pairs.
pub open spec fn pair_views(pairs: Seq<(&str, &str)>) -> Seq<(Seq<char>, Seq<char>)> {
    pairs.map_values(|e: (&str, &str)| (e.0@, e.1@))
}

/// A `form_urlencoded::Serializer` writing into a `String`, held opaque
/// and read only through the names below.
#[verifier::external_body]
pub struct FormSerializer {
    inner: Serializer<'static, String>,
}

/// The text that a form serializer's `String` target holds.
pub uninterp spec fn serializer_text(s: FormSerializer) -> Seq<char>;

/// The byte offset in the target from which the serializer writes pairs.
pub uninterp spec fn serializer_start(s: FormSerializer) -> nat;

/// The serializer still holds its target: `finish` has not been called.
pub uninterp spec fn serializer_open(s: FormSerializer) -> bool;

/// `form_urlencoded::Serializer::new`: a serializer that writes into
/// `target` from its start and holds `target` as it is.
#[verifier::external_body]
fn serializer_new(target: String) -> (r: FormSerializer)
    ensures
        serializer_open(r),
        serializer_start(r) == 0,
        serializer_text(r) == target@,
{
    FormSerializer { inner: Serializer::new(target) }
}

/// `Serializer::append_pair`: appends `&` when the target already holds
/// bytes past the start, then the encoded `name`, `=` and the encoded
/// `value`. It panics once the serializer is finished, which `requires`
/// rules out.
#[verifier::external_body]
fn serializer_append_pair(s: &mut FormSerializer, name: &str, value: &str)
    requires
        serializer_open(*old(s)),
    ensures
        serializer_open(*final(s)),
        serializer_start(*final(s)) == serializer_start(*old(s)),
        serializer_text(*final(s)) == serializer_text(*old(s)) + (if encode_utf8(
            serializer_text(*old(s)),
        ).len() > serializer_start(*old(s)) {
            seq!['&']
        } else {
            Seq::<char>::empty()
        }) + form_pair(name@, value@),
{
    s.inner.append_pair(name, value);
}

/// `Serializer::finish`: hands back the target. It panics when called a
/// second time, which `requires` rules out.
#[verifier::external_body]
fn serializer_finish(s: &mut FormSerializer) -> (r: String)
    requires
        serializer_open(*old(s)),
    ensures
        r@ == serializer_text(*old(s)),
        !serializer_open(*final(s)),
{
    s.inner.finish()
}

proof fn lemma_form_pairs_push(pairs: Seq<(Seq<char>, Seq<char>)>, e: (Seq<char>, Seq<char>))
    ensures
        form_pairs(pairs.push(e)) == form_pairs(pairs) + (if pairs.len() > 0 {
            seq!['&']
        } else {
            Seq::<char>::empty()
        }) + form_pair(e.0, e.1),
{
    assert(pairs.push(e).drop_last() =~= pairs);
    if pairs.len() == 0 {
        assert(Seq::<char>::empty() + Seq::<char>::empty() + form_pair(e.0, e.1) =~= form_pair(e.0, e.1));
    }
}

proof fn lemma_form_pairs_empty_iff(pairs: Seq<(Seq<char>, Seq<char>)>)
    ensures
        (form_pairs(pairs).len() == 0) == (pairs.len() == 0),
    decreases pairs.len(),
{
    if pairs.len() > 1 {
        lemma_form_pairs_empty_iff(pairs.drop_last());
    }
}

/// Encodes the pairs of `params` as `application/x-www-form-urlencoded`:
/// each pair as `name=value`, both encoded, joined by `&`, in the order in
/// which the map hands them out.
pub fn params_to_www_form_url_encoded(params: &HashMap<&str, &str>) -> (r: String)
    ensures
        obeys_key_model::<&str>() ==> exists|order: Seq<(&str, &str)>|
            {
                &&& order.no_duplicates()
                &&& order.len() == params@.len()
                &&& order.to_set() == params@.kv_pairs()
                &&& r@ == form_pairs(pair_views(order))
                &&& form_decode_pairs(r@) == pair_views(order)
            },
{
    let mut ser = serializer_new(String::new());
    let n = params.len();
    let mut it = VerusForLoopWrapper::new(params.iter(), Ghost(None));
    let ghost all = it.seq();
    let mut k: usize = 0;
    while k < n
        invariant_except_break
            k <= n,
        invariant
            serializer_open(ser),
            serializer_start(ser) == 0,
            it.wf(),
            it.seq() == all,
            it.index() == k,
            serializer_text(ser) == form_pairs(pair_views(all.unref().take(k as int))),
        ensures
            k == n || k == all.len(),
        decreases n - k,
    {
        let ghost text0 = serializer_text(ser);
        match it.next() {
            Some((name, value)) => {
                proof {
                    lemma_form_pairs_empty_iff(pair_views(all.unref().take(k as int)));
                    lemma_encode_utf8_empty_iff(text0);
                    lemma_form_pairs_push(pair_views(all.unref().take(k as int)), ((*name)@, (*value)@));
                    assert(pair_views(all.unref().take(k + 1)) =~= pair_views(all.unref().take(k as int)).push(((*name)@, (*value)@)));
                }
                serializer_append_pair(&mut ser, name, value);
            },
            None => {
                break;
            },
        }
        k = k + 1;
    }
    proof {
        if obeys_key_model::<&str>() {
            let order = all.unref();
            lemma_form_pairs_decode(pair_views(order));
            assert(all.len() == params@.dom().len());
            assert(order.take(k as int) =~= order);
            assert(order.no_duplicates()) by {
                assert forall|i: int, j: int| 0 <= i < order.len() && 0 <= j < order.len() && i != j
                    implies order[i] != order[j] by {
                    assert(all[i] != all[j]);
                }
            }
        }
    }
    serializer_finish(&mut ser)
}

/// Encodes `pairs` as `application/x-www-form-urlencoded`, in the order
/// given: each pair as `name=value`, both encoded, joined by `&`.
pub fn encode_pairs(pairs: &[(&str, &str)]) -> (r: String)
    ensures
        r@ == form_pairs(pair_views(pairs@)),
{
    let mut ser = serializer_new(String::new());
    let n = pairs.len();
    let mut k: usize = 0;
    while k < n
        invariant
            k <= n == pairs@.len(),
            serializer_open(ser),
            serializer_start(ser) == 0,
            serializer_text(ser) == form_pairs(pair_views(pairs@.take(k as int))),
        decreases n - k,
    {
        let (name, value) = pairs[k];
        proof {
            let before = pair_views(pairs@.take(k as int));
            lemma_form_pairs_empty_iff(before);
            lemma_encode_utf8_empty_iff(serializer_text(ser));
            lemma_form_pairs_push(before, (name@, value@));
            assert(pair_views(pairs@.take(k + 1)) =~= before.push((name@, value@)));
        }
        serializer_append_pair(&mut ser, name, value);
        k = k + 1;
    }
    assert(pairs@.take(n as int) =~= pairs@);
    serializer_finish(&mut ser)
}

// ---------------------------------------------------------------------------
// Reading the form encoding back

/// The value of an upper-case hexadecimal digit.
pub open spec fn hex_value(c: char) -> int {
    if '0' <= c <= '9' { (c as int) - 48 } else { (c as int) - 55 }
}

/// The bytes that encoded text stands for: `+` is a space, `%XX` the byte
/// with hex value `XX`, any other character its own byte.
pub open spec fn form_unbytes(t: Seq<char>) -> Seq<u8>
    decreases t.len(),
{
    if t.len() == 0 {
        Seq::empty()
    } else if t[0] == '+' {
        seq![32u8] + form_unbytes(t.skip(1))
    } else if t[0] == '%' && t.len() >= 3 {
        seq![(hex_value(t[1]) * 16 + hex_value(t[2])) as u8] + form_unbytes(t.skip(3))
    } else {
        seq![t[0] as u8] + form_unbytes(t.skip(1))
    }
}

/// The string that an encoded component stands for.
pub open spec fn form_decode_component(t: Seq<char>) -> Seq<char> {
    decode_utf8(form_unbytes(t))
}

/// The index of the last `c` in `t`, or -1 when there is none.
pub open spec fn last_index_of(t: Seq<char>, c: char) -> int
    decreases t.len(),
{
    if t.len() == 0 {
        -1
    } else if t.last() == c {
        t.len() - 1
    } else {
        last_index_of(t.drop_last(), c)
    }
}

/// A `name=value` segment read back: the name before the last `=`, the
/// value after it.
pub open spec fn form_decode_pair(p: Seq<char>) -> (Seq<char>, Seq<char>) {
    let k = last_index_of(p, '=');
    (form_decode_component(p.take(k)), form_decode_component(p.skip(k + 1)))
}

/// Encoded text read back into its pairs: the segments between `&`, each
/// read as a pair; the empty text holds no pair.
pub open spec fn form_decode_pairs(t: Seq<char>) -> Seq<(Seq<char>, Seq<char>)>
    decreases t.len(),
{
    if t.len() == 0 {
        Seq::empty()
    } else {
        let k = last_index_of(t, '&');
        if 0 <= k < t.len() {
            form_decode_pairs(t.take(k)).push(form_decode_pair(t.skip(k + 1)))
        } else {
            seq![form_decode_pair(t)]
        }
    }
}

/// Neither `&` nor `=` occurs in `t`.
pub open spec fn free_of_separators(t: Seq<char>) -> bool {
    forall|i: int| 0 <= i < t.len() ==> #[trigger] t[i] != '&' && t[i] != '='
}

proof fn lemma_form_bytes_free(bs: Seq<u8>)
    ensures
        free_of_separators(form_bytes(bs)),
    decreases bs.len(),
{
    if bs.len() > 0 {
        lemma_form_bytes_free(bs.drop_first());
        let f = form_byte(bs[0]);
        let r = form_bytes(bs.drop_first());
        assert forall|i: int| 0 <= i < (f + r).len() implies #[trigger] (f + r)[i] != '&' && (f + r)[i] != '=' by {
            if i >= f.len() {
                assert((f + r)[i] == r[i - f.len()]);
            }
        }
    }
}

proof fn lemma_last_index_absent(t: Seq<char>, c: char)
    requires
        forall|i: int| 0 <= i < t.len() ==> #[trigger] t[i] != c,
    ensures
        last_index_of(t, c) == -1,
    decreases t.len(),
{
    if t.len() > 0 {
        lemma_last_index_absent(t.drop_last(), c);
    }
}

proof fn lemma_last_index_split(a: Seq<char>, c: char, b: Seq<char>)
    requires
        forall|i: int| 0 <= i < b.len() ==> #[trigger] b[i] != c,
    ensures
        last_index_of(a + seq![c] + b, c) == a.len(),
    decreases b.len(),
{
    if b.len() > 0 {
        assert((a + seq![c] + b).drop_last() =~= a + seq![c] + b.drop_last());
        assert((a + seq![c] + b).last() == b.last());
        lemma_last_index_split(a, c, b.drop_last());
    } else {
        assert(a + seq![c] + b =~= a.push(c));
    }
}

proof fn lemma_hex_round_trip(n: int)
    requires
        0 <= n < 16,
    ensures
        hex_value(hex_upper(n)) == n,
{
    if n < 10 {
        assert((((48 + n) as char) as int) == 48 + n);
    } else {
        assert((((55 + n) as char) as int) == 55 + n);
    }
}

proof fn lemma_form_unbytes(bs: Seq<u8>)
    ensures
        form_unbytes(form_bytes(bs)) == bs,
    decreases bs.len(),
{
    if bs.len() > 0 {
        let b = bs[0];
        let f = form_byte(b);
        let r = form_bytes(bs.drop_first());
        let t = f + r;
        lemma_form_unbytes(bs.drop_first());
        assert(form_bytes(bs) == t);
        if form_unchanged(b) {
            assert(t[0] == b as char);
            assert(((b as char) as u8) == b);
            assert(t.skip(1) =~= r);
        } else if b == 32 {
            assert(t.skip(1) =~= r);
        } else {
            lemma_hex_round_trip(b as int / 16);
            lemma_hex_round_trip(b as int % 16);
            assert(t[1] == hex_upper(b as int / 16));
            assert(t[2] == hex_upper(b as int % 16));
            assert(t.skip(3) =~= r);
            assert((b as int / 16) * 16 + b as int % 16 == b);
        }
        assert(bs =~= seq![b] + bs.drop_first());
    }
}

proof fn lemma_form_decode_pair(name: Seq<char>, value: Seq<char>)
    ensures
        form_decode_pair(form_pair(name, value)) == (name, value),
        free_of_separators(form_component(name)),
        free_of_separators(form_component(value)),
{
    let a = form_component(name);
    let b = form_component(value);
    lemma_form_bytes_free(encode_utf8(name));
    lemma_form_bytes_free(encode_utf8(value));
    lemma_last_index_split(a, '=', b);
    let p = a + seq!['='] + b;
    assert(p.take(a.len() as int) =~= a);
    assert(p.skip(a.len() as int + 1) =~= b);
    lemma_form_unbytes(encode_utf8(name));
    lemma_form_unbytes(encode_utf8(value));
    vstd::utf8::encode_utf8_decode_utf8(name);
    vstd::utf8::encode_utf8_decode_utf8(value);
}

proof fn lemma_form_pairs_free_of_amp(pairs: Seq<(Seq<char>, Seq<char>)>)
    requires
        pairs.len() > 0,
    ensures
        forall|i: int| 0 <= i < form_pair(pairs.last().0, pairs.last().1).len()
            ==> #[trigger] form_pair(pairs.last().0, pairs.last().1)[i] != '&',
{
    let a = form_component(pairs.last().0);
    let b = form_component(pairs.last().1);
    lemma_form_decode_pair(pairs.last().0, pairs.last().1);
    let p = a + seq!['='] + b;
    assert forall|i: int| 0 <= i < p.len() implies #[trigger] p[i] != '&' by {
        if i < a.len() {
            assert(p[i] == a[i]);
        } else if i > a.len() {
            assert(p[i] == b[i - a.len() - 1]);
        }
    }
}

/// Reading the form encoding back gives the pairs that were encoded, in
/// their order.
pub proof fn lemma_form_pairs_decode(pairs: Seq<(Seq<char>, Seq<char>)>)
    ensures
        form_decode_pairs(form_pairs(pairs)) == pairs,
    decreases pairs.len(),
{
    if pairs.len() == 1 {
        let e = pairs[0];
        lemma_form_decode_pair(e.0, e.1);
        lemma_form_pairs_free_of_amp(pairs);
        let t = form_pair(e.0, e.1);
        lemma_last_index_absent(t, '&');
        lemma_form_pairs_empty_iff(pairs);
        assert(pairs =~= seq![e]);
    } else if pairs.len() > 1 {
        let pre = pairs.drop_last();
        let e = pairs.last();
        lemma_form_pairs_decode(pre);
        lemma_form_decode_pair(e.0, e.1);
        lemma_form_pairs_free_of_amp(pairs);
        let a = form_pairs(pre);
        let b = form_pair(e.0, e.1);
        lemma_last_index_split(a, '&', b);
        let t = a + seq!['&'] + b;
        assert(form_pairs(pairs) == t);
        assert(t.take(a.len() as int) =~= a);
        assert(t.skip(a.len() as int + 1) =~= b);
        assert(pairs =~= pre.push(e));
    }
}

proof fn lemma_encode_utf8_empty_iff(s: Seq<char>)
    ensures
        (encode_utf8(s).len() > 0) == (s.len() > 0),
{
}

// ---------------------------------------------------------------------------
// MD5

#[verifier::external_type_specification]
#[verifier::external_body]
pub struct ExMd5(Md5);

/// The bytes fed into an MD5 hasher so far.
pub uninterp spec fn md5_fed(h: Md5) -> Seq<u8>;

/// The hasher has produced its result and takes no more input.
pub uninterp spec fn md5_finished(h: Md5) -> bool;

/// The 16-byte MD5 digest of a message, as `crypto::md5::Md5` computes it.
pub uninterp spec fn md5_digest(data: Seq<u8>) -> Seq<u8>;

/// Lower-case hexadecimal digit of `n < 16`.
pub open spec fn hex_lower(n: int) -> char {
    if n < 10 { (48 + n) as char } else { (87 + n) as char }
}

/// Two lower-case hex digits per byte, high nibble first.
pub open spec fn to_hex_lower(bs: Seq<u8>) -> Seq<char>
    decreases bs.len(),
{
    if bs.len() == 0 {
        Seq::empty()
    } else {
        seq![hex_lower(bs[0] as int / 16), hex_lower(bs[0] as int % 16)] + to_hex_lower(bs.drop_first())
    }
}

/// `Md5::new`: a hasher that has been fed nothing.
#[verifier::external_body]
fn md5_new() -> (r: Md5)
    ensures
        md5_fed(r) == Seq::<u8>::empty(),
        !md5_finished(r),
{
    Md5::new()
}

/// `Digest::input_str`: feeds the UTF-8 bytes of `s`. The hasher asserts
/// that it has not finished, which `requires` rules out.
#[verifier::external_body]
fn md5_input_str(h: &mut Md5, s: &str)
    requires
        !md5_finished(*old(h)),
    ensures
        md5_fed(*final(h)) == md5_fed(*old(h)) + s.spec_bytes(),
        !md5_finished(*final(h)),
{
    h.input_str(s)
}

/// `Digest::result_str`: the digest of what was fed, as lower-case hex
/// (`rustc_serialize::hex::ToHex`), 32 characters for MD5's 16 bytes.
#[verifier::external_body]
fn md5_result_str(h: &mut Md5) -> (r: String)
    ensures
        r@ == to_hex_lower(md5_digest(md5_fed(*old(h)))),
        r@.len() == 32,
        md5_fed(*final(h)) == md5_fed(*old(h)),
        md5_finished(*final(h)),
{
    h.result_str()
}

/// The MD5 digest of the UTF-8 bytes of `clear`, in lower-case hex.
pub fn get_md5(clear: &str) -> (r: String)
    ensures
        r@ == to_hex_lower(md5_digest(clear.spec_bytes())),
        r@.len() == 32,
{
    let mut hasher = md5_new();
    md5_input_str(&mut hasher, clear);
    assert(Seq::<u8>::empty() + clear.spec_bytes() =~= clear.spec_bytes());
    md5_result_str(&mut hasher)
}

} // verus!
