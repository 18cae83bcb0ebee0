use vstd::prelude::*;

use crate::world::{layer_wf, Chunk, World};

verus! {

/// Whether `pat` occurs in `s` at position `i`.
pub open spec fn occurs_at(s: Seq<u8>, i: int, pat: Seq<u8>) -> bool {
    0 <= i && i + pat.len() <= s.len() && s.subrange(i, i + pat.len()) == pat
}

/// First position at or after `i` where `pat` occurs wholly before `hi`.
pub open spec fn find_from(s: Seq<u8>, pat: Seq<u8>, i: int, hi: int) -> Option<int>
    decreases hi + 1 - i,
{
    if i < 0 || i + pat.len() > hi || hi > s.len() {
        None
    } else if occurs_at(s, i, pat) {
        Some(i)
    } else {
        find_from(s, pat, i + 1, hi)
    }
}

pub open spec fn is_space(b: u8) -> bool {
    b == 32 || b == 9 || b == 10 || b == 13 || b == 11 || b == 12
}

/// Start of `s[lo..hi]` once leading white space is dropped.
pub open spec fn trim_start(s: Seq<u8>, lo: int, hi: int) -> int
    decreases hi - lo,
{
    if lo < hi && is_space(s[lo]) {
        trim_start(s, lo + 1, hi)
    } else {
        lo
    }
}

/// End of `s[lo..hi]` once trailing white space is dropped.
pub open spec fn trim_end(s: Seq<u8>, lo: int, hi: int) -> int
    decreases hi - lo,
{
    if lo < hi && is_space(s[hi - 1]) {
        trim_end(s, lo, hi - 1)
    } else {
        hi
    }
}

pub open spec fn is_digit(b: u8) -> bool {
    48 <= b <= 57
}

/// Decimal value of a run of digits.
pub open spec fn digits_value(d: Seq<u8>) -> int
    decreases d.len(),
{
    if d.len() == 0 {
        0
    } else {
        digits_value(d.drop_last()) * 10 + (d.last() - 48)
    }
}

/// Whether `d` is one or more decimal digits.
pub open spec fn all_digits(d: Seq<u8>) -> bool {
    d.len() > 0 && forall|i: int| 0 <= i < d.len() ==> #[trigger] is_digit(d[i])
}

/// Whether `b` starts with a sign.
pub open spec fn signed(b: Seq<u8>) -> bool {
    b.len() > 0 && (b[0] == 45 || b[0] == 43)
}

/// `b` without its sign.
pub open spec fn unsigned_part(b: Seq<u8>) -> Seq<u8> {
    if signed(b) {
        b.drop_first()
    } else {
        b
    }
}

/// Value of `b` read as an optionally signed decimal number.
pub open spec fn signed_value(b: Seq<u8>) -> int {
    if b.len() > 0 && b[0] == 45 {
        -digits_value(unsigned_part(b))
    } else {
        digits_value(unsigned_part(b))
    }
}

/// A decimal `i16`: an optional sign, then one or more digits, the value in
/// range.
pub open spec fn parse_i16_spec(b: Seq<u8>) -> Option<i16> {
    if all_digits(unsigned_part(b)) && -32768 <= signed_value(b) <= 32767 {
        Some(signed_value(b) as i16)
    } else {
        None
    }
}

/// The value of the field `s[lo..hi]` once trimmed.
pub open spec fn field_value(s: Seq<u8>, lo: int, hi: int) -> Option<i16> {
    let a = trim_start(s, lo, hi);
    parse_i16_spec(s.subrange(a, trim_end(s, a, hi)))
}

/// The first `n` comma-separated values of `s[pos..hi]`; `pos == hi + 1`
/// marks that every field has been taken.
pub open spec fn fields(s: Seq<u8>, pos: int, hi: int, n: nat) -> Option<Seq<i16>>
    decreases n,
{
    if n == 0 {
        Some(Seq::empty())
    } else if pos > hi {
        None
    } else {
        let comma = find_from(s, seq![44u8], pos, hi);
        let end = match comma {
            Some(e) => e,
            None => hi,
        };
        let next = match comma {
            Some(e) => e + 1,
            None => hi + 1,
        };
        match field_value(s, pos, end) {
            None => None,
            Some(v) => match fields(s, next, hi, (n - 1) as nat) {
                Some(rest) => Some(seq![v] + rest),
                None => None,
            },
        }
    }
}

/// The quoted value after `key` (such as `x="`) in `s[lo..hi]`.
pub open spec fn attribute(s: Seq<u8>, key: Seq<u8>, lo: int, hi: int) -> Option<i16> {
    match find_from(s, key, lo, hi) {
        None => None,
        Some(k) => match find_from(s, seq![34u8], k + key.len(), hi) {
            None => None,
            Some(q) => parse_i16_spec(s.subrange(k + key.len(), q)),
        },
    }
}

pub open spec fn chunk_open() -> Seq<u8> {
    seq![60u8, 99u8, 104u8, 117u8, 110u8, 107u8, 32u8]
}

pub open spec fn x_key() -> Seq<u8> {
    seq![120u8, 61u8, 34u8]
}

pub open spec fn y_key() -> Seq<u8> {
    seq![121u8, 61u8, 34u8]
}

/// Origin and tiles of the chunk described in `s[lo..hi]`: after the
/// `<chunk ` opener, the tag up to `>` gives the origin as `x="…"` and
/// `y="…"`, and the 256 comma-separated values after it give the tiles.
pub open spec fn chunk_spec(s: Seq<u8>, lo: int, hi: int) -> Option<(i16, i16, Seq<i16>)> {
    match find_from(s, chunk_open(), lo, hi) {
        None => None,
        Some(a) => {
            let t = a + 7;
            match find_from(s, seq![62u8], t, hi) {
                None => None,
                Some(b) => match (attribute(s, x_key(), t, b), attribute(s, y_key(), t, b), fields(s, b + 1, hi, 256)) {
                    (Some(x), Some(y), Some(tiles)) => Some((x, y, tiles)),
                    _ => None,
                },
            }
        },
    }
}

/// Whether `i` is the position of `pat` in `s[lo..hi]` found first.
proof fn lemma_find_from(s: Seq<u8>, pat: Seq<u8>, i: int, hi: int)
    requires
        0 <= i,
        hi <= s.len(),
    ensures
        find_from(s, pat, i, hi) matches Some(k) ==> i <= k && k + pat.len() <= hi && occurs_at(s, k, pat),
    decreases hi + 1 - i,
{
    if i + pat.len() <= hi && !occurs_at(s, i, pat) {
        lemma_find_from(s, pat, i + 1, hi);
    }
}

/// First position in `s[i..hi]` where `pat` occurs.
pub fn find(s: &[u8], pat: &[u8], i: usize, hi: usize) -> (r: Option<usize>)
    requires
        hi <= s@.len(),
    ensures
        r matches Some(k) ==> find_from(s@, pat@, i as int, hi as int) == Some(k as int),
        r is None ==> find_from(s@, pat@, i as int, hi as int) is None,
        r matches Some(k) ==> i <= k && k + pat@.len() <= hi,
{
    let mut j = i;
    while j <= hi && pat.len() <= hi - j
        invariant
            i <= j,
            hi <= s@.len(),
            find_from(s@, pat@, i as int, hi as int) == find_from(s@, pat@, j as int, hi as int),
        decreases hi - j + 1,
    {
        let mut k: usize = 0;
        while k < pat.len() && s[j + k] == pat[k]
            invariant
                0 <= k <= pat@.len(),
                j + pat@.len() <= hi <= s@.len(),
                forall|m: int| 0 <= m < k ==> s@[j + m] == pat@[m],
            decreases pat@.len() - k,
        {
            k = k + 1;
        }
        if k == pat.len() {
            assert(s@.subrange(j as int, j + pat@.len()) =~= pat@);
            return Some(j);
        }
        assert(s@.subrange(j as int, j + pat@.len())[k as int] != pat@[k as int]);
        j = j + 1;
    }
    None
}

pub fn trim_range(s: &[u8], lo: usize, hi: usize) -> (r: (usize, usize))
    requires
        lo <= hi <= s@.len(),
    ensures
        r.0 == trim_start(s@, lo as int, hi as int),
        r.1 == trim_end(s@, r.0 as int, hi as int),
        lo <= r.0 <= r.1 <= hi,
{
    let mut a = lo;
    while a < hi && is_space_byte(s[a])
        invariant
            lo <= a <= hi <= s@.len(),
            trim_start(s@, lo as int, hi as int) == trim_start(s@, a as int, hi as int),
        decreases hi - a,
    {
        a = a + 1;
    }
    let mut b = hi;
    while a < b && is_space_byte(s[b - 1])
        invariant
            lo <= a <= b <= hi <= s@.len(),
            trim_end(s@, a as int, hi as int) == trim_end(s@, a as int, b as int),
        decreases b - a,
    {
        b = b - 1;
    }
    (a, b)
}

fn is_space_byte(b: u8) -> (r: bool)
    ensures
        r == is_space(b),
{
    b == 32 || b == 9 || b == 10 || b == 13 || b == 11 || b == 12
}

proof fn lemma_digits_grow(d: Seq<u8>, k: int)
    requires
        0 <= k <= d.len(),
        forall|i: int| 0 <= i < d.len() ==> #[trigger] is_digit(d[i]),
    ensures
        0 <= digits_value(d.subrange(0, k)) <= digits_value(d),
    decreases d.len() - k,
{
    if k < d.len() {
        lemma_digits_grow(d, k + 1);
        assert(d.subrange(0, k + 1).drop_last() =~= d.subrange(0, k));
        assert(is_digit(d[k]));
    } else {
        assert(d.subrange(0, k) =~= d);
        lemma_digits_nonneg(d);
    }
}

proof fn lemma_digits_nonneg(d: Seq<u8>)
    requires
        forall|i: int| 0 <= i < d.len() ==> #[trigger] is_digit(d[i]),
    ensures
        digits_value(d) >= 0,
    decreases d.len(),
{
    if d.len() > 0 {
        assert(is_digit(d[d.len() - 1]));
        lemma_digits_nonneg(d.drop_last());
    }
}

/// Reads `s[lo..hi]` as a decimal `i16`, see `parse_i16_spec`.
pub fn parse_i16(s: &[u8], lo: usize, hi: usize) -> (r: Option<i16>)
    requires
        lo <= hi <= s@.len(),
    ensures
        r == parse_i16_spec(s@.subrange(lo as int, hi as int)),
{
    let ghost b = s@.subrange(lo as int, hi as int);
    let mut i = lo;
    let mut neg = false;
    if i < hi && (s[i] == 45 || s[i] == 43) {
        neg = s[i] == 45;
        i = i + 1;
    }
    let ghost d = s@.subrange(i as int, hi as int);
    assert(d =~= unsigned_part(b));
    if i == hi {
        return None;
    }
    let start = i;
    let mut acc: i64 = 0;
    while i < hi
        invariant
            start <= i <= hi <= s@.len(),
            d == s@.subrange(start as int, hi as int),
            b == s@.subrange(lo as int, hi as int),
            d == unsigned_part(b),
            neg == (b.len() > 0 && b[0] == 45),
            d.len() > 0,
            acc == digits_value(d.subrange(0, i - start)),
            0 <= acc <= 32768,
            forall|m: int| 0 <= m < i - start ==> #[trigger] is_digit(d[m]),
        decreases hi - i,
    {
        if !(48 <= s[i] && s[i] <= 57) {
            assert(!is_digit(d[i - start]));
            assert(!all_digits(d));
            return None;
        }
        assert(d.subrange(0, i - start + 1).drop_last() =~= d.subrange(0, i - start));
        acc = acc * 10 + (s[i] - 48) as i64;
        i = i + 1;
        if acc > 32768 {
            proof {
                if all_digits(d) {
                    lemma_digits_grow(d, i - start);
                }
            }
            return None;
        }
    }
    assert(d.subrange(0, d.len() as int) =~= d);
    assert(all_digits(d));
    if neg {
        Some((-acc) as i16)
    } else if acc > 32767 {
        None
    } else {
        Some(acc as i16)
    }
}

/// The value of the trimmed field `s[lo..hi]`.
pub fn field(s: &[u8], lo: usize, hi: usize) -> (r: Option<i16>)
    requires
        lo <= hi <= s@.len(),
    ensures
        r == field_value(s@, lo as int, hi as int),
{
    let (a, b) = trim_range(s, lo, hi);
    parse_i16(s, a, b)
}

/// The first `n` comma-separated values of `s[pos..hi]`, see `fields`.
pub fn read_fields(s: &[u8], pos: usize, hi: usize, n: usize) -> (r: Option<Vec<i16>>)
    requires
        pos <= hi <= s@.len(),
        hi < usize::MAX,
    ensures
        match fields(s@, pos as int, hi as int, n as nat) {
            Some(v) => r matches Some(w) && w@ == v,
            None => r is None,
        },
{
    let mut out: Vec<i16> = Vec::new();
    let mut p = pos;
    let mut k: usize = 0;
    while k < n
        invariant
            pos <= p <= hi + 1,
            hi <= s@.len(),
            hi < usize::MAX,
            0 <= k <= n,
            fields(s@, pos as int, hi as int, n as nat) == match fields(s@, p as int, hi as int, (n - k) as nat) {
                Some(rest) => Some(out@ + rest),
                None => None,
            },
        decreases n - k,
    {
        if p > hi {
            return None;
        }
        let comma: [u8; 1] = [44];
        assert(comma@ =~= seq![44u8]);
        let found = find(s, &comma, p, hi);
        let (end, next) = match found {
            Some(e) => (e, e + 1),
            None => (hi, hi + 1),
        };
        match field(s, p, end) {
            None => {
                return None;
            },
            Some(v) => {
                proof {
                    let rest_n = (n - k - 1) as nat;
                    assert(fields(s@, p as int, hi as int, (n - k) as nat) == match fields(s@, next as int, hi as int, rest_n) {
                        Some(rest) => Some(seq![v] + rest),
                        None => None,
                    });
                    if let Some(rest) = fields(s@, next as int, hi as int, rest_n) {
                        assert(out@ + (seq![v] + rest) =~= out@.push(v) + rest);
                    }
                }
                out.push(v);
                p = next;
            },
        }
        k = k + 1;
    }
    assert(out@ + Seq::<i16>::empty() =~= out@);
    Some(out)
}

pub open spec fn chunk_close() -> Seq<u8> {
    seq![60u8, 47u8, 99u8, 104u8, 117u8, 110u8, 107u8, 62u8]
}

pub open spec fn layer_close() -> Seq<u8> {
    seq![60u8, 47u8, 108u8, 97u8, 121u8, 101u8, 114u8, 62u8]
}

/// ` name="` followed by a layer's name.
pub open spec fn name_key(name: Seq<u8>) -> Seq<u8> {
    seq![32u8, 110u8, 97u8, 109u8, 101u8, 61u8, 34u8] + name
}

/// A chunk as plain values: origin and tiles.
pub open spec fn chunk_model(c: Chunk) -> (i16, i16, Seq<i16>) {
    (c.x, c.y, c.tiles@)
}

/// The chunks of `s[pos..hi]`: each piece that a `</chunk>` closes is read
/// as one chunk, in order. (A match found lies inside the range, so the
/// first branch of the test on `i` is never taken; it makes the recursion
/// visibly shrink the range.)
pub open spec fn chunks_from(s: Seq<u8>, pos: int, hi: int) -> Option<Seq<(i16, i16, Seq<i16>)>>
    decreases hi - pos,
{
    match find_from(s, chunk_close(), pos, hi) {
        None => Some(Seq::empty()),
        Some(i) => if i < pos || i + 8 > hi {
            None
        } else {
            match chunk_spec(s, pos, i) {
                None => None,
                Some(c) => match chunks_from(s, i + 8, hi) {
                    Some(rest) => Some(seq![c] + rest),
                    None => None,
                },
            }
        },
    }
}

/// The body of the layer called `name`: after the first ` name="<name>`,
/// from past the next `>` up to the next `</layer>`.
pub open spec fn layer_range(s: Seq<u8>, name: Seq<u8>) -> Option<(int, int)> {
    match find_from(s, name_key(name), 0, s.len() as int) {
        None => None,
        Some(p) => match find_from(s, seq![62u8], p + name_key(name).len(), s.len() as int) {
            None => None,
            Some(g) => match find_from(s, layer_close(), g + 1, s.len() as int) {
                None => None,
                Some(e) => Some((g + 1, e)),
            },
        },
    }
}

/// The quoted number after `key` in `s[lo..hi]`, see `attribute`.
pub fn read_attribute(s: &[u8], key: &[u8], lo: usize, hi: usize) -> (r: Option<i16>)
    requires
        lo <= hi <= s@.len(),
    ensures
        r == attribute(s@, key@, lo as int, hi as int),
{
    match find(s, key, lo, hi) {
        None => None,
        Some(k) => {
            let quote: [u8; 1] = [34];
            assert(quote@ =~= seq![34u8]);
            match find(s, &quote, k + key.len(), hi) {
                None => None,
                Some(q) => parse_i16(s, k + key.len(), q),
            }
        },
    }
}

/// Reads the chunk described in `s[lo..hi]`, see `chunk_spec`; nothing when
/// a marker is missing or a number does not read.
pub fn parse_chunk(s: &[u8], lo: usize, hi: usize) -> (r: Option<Chunk>)
    requires
        lo <= hi <= s@.len(),
        hi < usize::MAX,
    ensures
        match chunk_spec(s@, lo as int, hi as int) {
            Some(m) => r matches Some(c) && chunk_model(c) == m && c.wf(),
            None => r is None,
        },
{
    let open: [u8; 7] = [60, 99, 104, 117, 110, 107, 32];
    assert(open@ =~= chunk_open());
    let a = match find(s, &open, lo, hi) {
        None => {
            return None;
        },
        Some(a) => a,
    };
    let t = a + 7;
    let gt: [u8; 1] = [62];
    assert(gt@ =~= seq![62u8]);
    let b = match find(s, &gt, t, hi) {
        None => {
            return None;
        },
        Some(b) => b,
    };
    let xk: [u8; 3] = [120, 61, 34];
    assert(xk@ =~= x_key());
    let yk: [u8; 3] = [121, 61, 34];
    assert(yk@ =~= y_key());
    let x = read_attribute(s, &xk, t, b);
    let y = read_attribute(s, &yk, t, b);
    let tiles = read_fields(s, b + 1, hi, 256);
    match (x, y, tiles) {
        (Some(x), Some(y), Some(tiles)) => {
            proof {
                lemma_fields_len(s@, (b + 1) as int, hi as int, 256);
            }
            Some(Chunk { x, y, tiles })
        },
        _ => None,
    }
}

proof fn lemma_fields_len(s: Seq<u8>, pos: int, hi: int, n: nat)
    ensures
        fields(s, pos, hi, n) matches Some(v) ==> v.len() == n,
    decreases n,
{
    if n > 0 && pos <= hi {
        let comma = find_from(s, seq![44u8], pos, hi);
        let next = match comma {
            Some(e) => e + 1,
            None => hi + 1,
        };
        lemma_fields_len(s, next, hi, (n - 1) as nat);
    }
}

/// Reads every chunk of `s[pos..hi]`, see `chunks_from`.
pub fn get_all_chunks(s: &[u8], pos: usize, hi: usize) -> (r: Option<Vec<Chunk>>)
    requires
        pos <= hi <= s@.len(),
        hi < usize::MAX,
    ensures
        match chunks_from(s@, pos as int, hi as int) {
            Some(m) => r matches Some(v) && v@.map_values(|c: Chunk| chunk_model(c)) == m
                && forall|i: int| 0 <= i < v@.len() ==> #[trigger] v@[i].wf(),
            None => r is None,
        },
{
    let close: [u8; 8] = [60, 47, 99, 104, 117, 110, 107, 62];
    assert(close@ =~= chunk_close());
    let mut out: Vec<Chunk> = Vec::new();
    let mut p = pos;
    loop
        invariant
            pos <= p <= hi <= s@.len(),
            hi < usize::MAX,
            close@ == chunk_close(),
            forall|i: int| 0 <= i < out@.len() ==> #[trigger] out@[i].wf(),
            chunks_from(s@, pos as int, hi as int) == match chunks_from(s@, p as int, hi as int) {
                Some(rest) => Some(out@.map_values(|c: Chunk| chunk_model(c)) + rest),
                None => None,
            },
        ensures
            chunks_from(s@, pos as int, hi as int) == Some(out@.map_values(|c: Chunk| chunk_model(c))),
            forall|i: int| 0 <= i < out@.len() ==> #[trigger] out@[i].wf(),
        decreases hi - p,
    {
        match find(s, &close, p, hi) {
            None => {
                assert(out@.map_values(|c: Chunk| chunk_model(c)) + Seq::empty() =~= out@.map_values(|c: Chunk| chunk_model(c)));
                break;
            },
            Some(i) => {
                match parse_chunk(s, p, i) {
                    None => {
                        return None;
                    },
                    Some(c) => {
                        let ghost before = out@;
                        out.push(c);
                        proof {
                            if let Some(rest) = chunks_from(s@, i + 8, hi as int) {
                                assert(out@.map_values(|c: Chunk| chunk_model(c)) =~= before.map_values(|c: Chunk| chunk_model(c)).push(chunk_model(c)));
                                assert(before.map_values(|c: Chunk| chunk_model(c)) + (seq![chunk_model(c)] + rest) =~= out@.map_values(|c: Chunk| chunk_model(c)) + rest);
                            }
                        }
                        p = i + 8;
                    },
                }
            },
        }
    }
    Some(out)
}

/// Name of the Collision layer.
pub open spec fn collision_name() -> Seq<u8> {
    seq![67u8, 111u8, 108u8, 108u8, 105u8, 115u8, 105u8, 111u8, 110u8]
}

/// Name of the OneWayCollision layer.
pub open spec fn one_way_name() -> Seq<u8> {
    seq![79u8, 110u8, 101u8, 87u8, 97u8, 121u8, 67u8, 111u8, 108u8, 108u8, 105u8, 115u8, 105u8, 111u8, 110u8]
}

/// Name of the Detail layer.
pub open spec fn detail_name() -> Seq<u8> {
    seq![68u8, 101u8, 116u8, 97u8, 105u8, 108u8]
}

/// Name of the Interactable layer.
pub open spec fn interactable_name() -> Seq<u8> {
    seq![73u8, 110u8, 116u8, 101u8, 114u8, 97u8, 99u8, 116u8, 97u8, 98u8, 108u8, 101u8]
}

/// Name of the Background layer.
pub open spec fn background_name() -> Seq<u8> {
    seq![66u8, 97u8, 99u8, 107u8, 103u8, 114u8, 111u8, 117u8, 110u8, 100u8]
}

/// Whether no two chunks of a layer share an origin.
pub open spec fn models_unique(m: Seq<(i16, i16, Seq<i16>)>) -> bool {
    forall|i: int, j: int|
        0 <= i < m.len() && 0 <= j < m.len() && i != j ==> !(#[trigger] m[i].0 == #[trigger] m[j].0
            && m[i].1 == m[j].1)
}

/// The chunks of the layer called `name`, when the layer is there, every
/// chunk of it reads, and no two of them share an origin.
pub open spec fn map_layer(s: Seq<u8>, name: Seq<u8>) -> Option<Seq<(i16, i16, Seq<i16>)>> {
    match layer_range(s, name) {
        None => None,
        Some((a, b)) => match chunks_from(s, a, b) {
            Some(m) => if models_unique(m) {
                Some(m)
            } else {
                None
            },
            None => None,
        },
    }
}

/// Whether no two chunks of `layer` share an origin.
pub fn origins_unique(layer: &Vec<Chunk>) -> (r: bool)
    ensures
        r == models_unique(layer@.map_values(|c: Chunk| chunk_model(c))),
{
    let ghost m = layer@.map_values(|c: Chunk| chunk_model(c));
    let mut i: usize = 0;
    while i < layer.len()
        invariant
            0 <= i <= layer@.len(),
            m == layer@.map_values(|c: Chunk| chunk_model(c)),
            forall|a: int, b: int|
                0 <= a < i && 0 <= b < m.len() && a != b ==> !(#[trigger] m[a].0 == #[trigger] m[b].0
                    && m[a].1 == m[b].1),
        decreases layer@.len() - i,
    {
        let mut j: usize = 0;
        while j < layer.len()
            invariant
                0 <= i < layer@.len(),
                0 <= j <= layer@.len(),
                m == layer@.map_values(|c: Chunk| chunk_model(c)),
                forall|a: int, b: int|
                    0 <= a < i && 0 <= b < m.len() && a != b ==> !(#[trigger] m[a].0 == #[trigger] m[b].0
                        && m[a].1 == m[b].1),
                forall|b: int| 0 <= b < j && b != i ==> !(m[i as int].0 == #[trigger] m[b].0 && m[i as int].1 == m[b].1),
            decreases layer@.len() - j,
        {
            if j != i && layer[i].x == layer[j].x && layer[i].y == layer[j].y {
                assert(m[i as int].0 == m[j as int].0 && m[i as int].1 == m[j as int].1);
                return false;
            }
            j = j + 1;
        }
        i = i + 1;
    }
    true
}

/// Reads the layer called `name` from the map, see `map_layer`.
pub fn read_layer(s: &[u8], name: &[u8]) -> (r: Option<Vec<Chunk>>)
    requires
        s@.len() < usize::MAX,
    ensures
        match map_layer(s@, name@) {
            Some(m) => r matches Some(v) && v@.map_values(|c: Chunk| chunk_model(c)) == m && layer_wf(v@),
            None => r is None,
        },
{
    let mut key: Vec<u8> = vec![32, 110, 97, 109, 101, 61, 34];
    let mut i: usize = 0;
    while i < name.len()
        invariant
            0 <= i <= name@.len(),
            key@ == seq![32u8, 110u8, 97u8, 109u8, 101u8, 61u8, 34u8] + name@.subrange(0, i as int),
        decreases name@.len() - i,
    {
        key.push(name[i]);
        i = i + 1;
        assert(key@ =~= seq![32u8, 110u8, 97u8, 109u8, 101u8, 61u8, 34u8] + name@.subrange(0, i as int));
    }
    assert(key@ =~= name_key(name@));
    let p = match find(s, key.as_slice(), 0, s.len()) {
        None => {
            return None;
        },
        Some(p) => p,
    };
    let gt: [u8; 1] = [62];
    assert(gt@ =~= seq![62u8]);
    let g = match find(s, &gt, p + key.len(), s.len()) {
        None => {
            return None;
        },
        Some(g) => g,
    };
    let close: [u8; 8] = [60, 47, 108, 97, 121, 101, 114, 62];
    assert(close@ =~= layer_close());
    let e = match find(s, &close, g + 1, s.len()) {
        None => {
            return None;
        },
        Some(e) => e,
    };
    let chunks = match get_all_chunks(s, g + 1, e) {
        None => {
            return None;
        },
        Some(c) => c,
    };
    if !origins_unique(&chunks) {
        return None;
    }
    proof {
        let m = chunks@.map_values(|c: Chunk| chunk_model(c));
        assert forall|a: int, b: int|
            0 <= a < chunks@.len() && 0 <= b < chunks@.len() && a != b implies !(#[trigger] chunks@[a].x
                == #[trigger] chunks@[b].x && chunks@[a].y == chunks@[b].y) by {
            assert(m[a].0 == chunks@[a].x && m[b].0 == chunks@[b].x);
        }
    }
    Some(chunks)
}

impl World {
    /// Builds a world from map text: the five layers `Collision`,
    /// `OneWayCollision`, `Detail`, `Background` and `Interactable`, each
    /// read as `map_layer` reads it; nothing when one of them does not read.
    pub fn from_map(s: &[u8]) -> (r: Option<World>)
        requires
            s@.len() < usize::MAX,
        ensures
            r is None <==> (map_layer(s@, collision_name()) is None || map_layer(s@, one_way_name()) is None
                || map_layer(s@, detail_name()) is None || map_layer(s@, background_name()) is None
                || map_layer(s@, interactable_name()) is None),
            r matches Some(w) ==> {
                &&& w.wf()
                &&& Some(w.collision@.map_values(|c: Chunk| chunk_model(c))) == map_layer(s@, collision_name())
                &&& Some(w.one_way_collision@.map_values(|c: Chunk| chunk_model(c))) == map_layer(s@, one_way_name())
                &&& Some(w.details@.map_values(|c: Chunk| chunk_model(c))) == map_layer(s@, detail_name())
                &&& Some(w.background@.map_values(|c: Chunk| chunk_model(c))) == map_layer(s@, background_name())
                &&& Some(w.interactable@.map_values(|c: Chunk| chunk_model(c))) == map_layer(s@, interactable_name())
            },
    {
        let collision_n: [u8; 9] = [67, 111, 108, 108, 105, 115, 105, 111, 110];
        assert(collision_n@ =~= collision_name());
        let one_way_n: [u8; 15] = [79, 110, 101, 87, 97, 121, 67, 111, 108, 108, 105, 115, 105, 111, 110];
        assert(one_way_n@ =~= one_way_name());
        let detail_n: [u8; 6] = [68, 101, 116, 97, 105, 108];
        assert(detail_n@ =~= detail_name());
        let interactable_n: [u8; 12] = [73, 110, 116, 101, 114, 97, 99, 116, 97, 98, 108, 101];
        assert(interactable_n@ =~= interactable_name());
        let background_n: [u8; 10] = [66, 97, 99, 107, 103, 114, 111, 117, 110, 100];
        assert(background_n@ =~= background_name());
        let collision = read_layer(s, &collision_n);
        let one_way_collision = read_layer(s, &one_way_n);
        let details = read_layer(s, &detail_n);
        let interactable = read_layer(s, &interactable_n);
        let background = read_layer(s, &background_n);
        match (collision, one_way_collision, details, background, interactable) {
            (Some(collision), Some(one_way_collision), Some(details), Some(background), Some(interactable)) => Some(World {
                collision,
                one_way_collision,
                details,
                background,
                interactable,
            }),
            _ => None,
        }
    }
}

} // verus!
