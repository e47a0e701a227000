//! A best-effort page count of a PDF: the largest `/Count` of its page tree.

use vstd::prelude::*;

verus! {

/// Index of the first occurrence of `needle` in `data`, or -1.
pub open spec fn bytes_find(data: Seq<u8>, needle: Seq<u8>) -> int
    decreases data.len(),
{
    if data.len() < needle.len() {
        -1
    } else if data.take(needle.len() as int) == needle {
        0
    } else if data.len() == 0 {
        -1
    } else {
        let r = bytes_find(data.drop_first(), needle);
        if r < 0 {
            -1
        } else {
            r + 1
        }
    }
}

proof fn lemma_bytes_find(data: Seq<u8>, needle: Seq<u8>)
    ensures
        -1 <= bytes_find(data, needle),
        bytes_find(data, needle) >= 0 ==> bytes_find(data, needle) + needle.len() <= data.len(),
    decreases data.len(),
{
    if data.len() >= needle.len() && data.take(needle.len() as int) != needle && data.len() > 0 {
        lemma_bytes_find(data.drop_first(), needle);
    }
}

fn window_is(data: &[u8], at: usize, needle: &[u8]) -> (r: bool)
    requires
        at + needle@.len() <= data@.len(),
    ensures
        r == (data@.skip(at as int).take(needle@.len() as int) == needle@),
{
    let mut k: usize = 0;
    while k < needle.len()
        invariant
            at + needle@.len() <= data@.len(),
            k <= needle.len(),
            forall|j: int| 0 <= j < k ==> data@[at + j] == needle@[j],
        decreases needle.len() - k,
    {
        assert(at + k < data.len());
        if data[at + k] != needle[k] {
            assert(data@.skip(at as int).take(needle@.len() as int)[k as int] != needle@[k as int]);
            return false;
        }
        k = k + 1;
    }
    assert(data@.skip(at as int).take(needle@.len() as int) =~= needle@);
    true
}

/// First position of `needle` in `data[from..]`, counted from the start of
/// `data`.
fn find_from(data: &[u8], from: usize, needle: &[u8]) -> (r: Option<usize>)
    requires
        from <= data@.len(),
    ensures
        match r {
            Some(p) => from <= p && p - from == bytes_find(data@.skip(from as int), needle@)
                && p + needle@.len() <= data.len(),
            None => bytes_find(data@.skip(from as int), needle@) == -1,
        },
{
    let ghost d = data@.skip(from as int);
    let mut i: usize = from;
    assert(data@.skip(i as int) =~= d);
    while i <= data.len() && needle.len() <= data.len() - i
        invariant
            from <= i,
            i <= data@.len() + 1,
            d == data@.skip(from as int),
            i <= data@.len() ==> bytes_find(d, needle@) == (if bytes_find(data@.skip(i as int), needle@) < 0 {
                -1
            } else {
                (i - from) + bytes_find(data@.skip(i as int), needle@)
            }),
            i > data@.len() ==> bytes_find(d, needle@) == -1,
        decreases data@.len() + 1 - i,
    {
        proof { lemma_bytes_find(data@.skip(i as int), needle@); }
        if window_is(data, i, needle) {
            return Some(i);
        }
        if i == data.len() {
            assert(data@.skip(i as int).len() == 0);
            assert(needle@.len() == 0);
            assert(data@.skip(i as int).take(0) =~= needle@);
        }
        assert(data@.skip(i as int).drop_first() =~= data@.skip(i + 1));
        i = i + 1;
    }
    if i <= data.len() {
        assert(data@.skip(i as int).len() < needle@.len());
    }
    None
}

/// First position of `needle` in `data` (`needle` must not be empty).
pub fn find(data: &[u8], needle: &[u8]) -> (r: Option<usize>)
    requires
        needle@.len() > 0,
    ensures
        match r {
            Some(p) => p == bytes_find(data@, needle@),
            None => bytes_find(data@, needle@) == -1,
        },
{
    assert(data@.skip(0) =~= data@);
    find_from(data, 0, needle)
}

/// An ASCII digit.
pub open spec fn is_digit_byte(b: u8) -> bool {
    48 <= b <= 57
}

/// The number after a `/Count` key: leading non-digits are skipped, then
/// the run of digits is taken (within the window examined).
pub open spec fn digit_run(w: Seq<u8>, acc: Seq<u8>) -> Seq<u8>
    decreases w.len(),
{
    if w.len() == 0 {
        acc
    } else if is_digit_byte(w[0]) {
        digit_run(w.drop_first(), acc.push(w[0]))
    } else if acc.len() > 0 {
        acc
    } else {
        digit_run(w.drop_first(), acc)
    }
}

/// The decimal value of a run of digits.
pub open spec fn digits_num(s: Seq<u8>) -> nat
    decreases s.len(),
{
    if s.len() == 0 {
        0
    } else {
        10 * digits_num(s.drop_last()) + (s.last() - 48) as nat
    }
}

/// `10^k`.
pub open spec fn pow10(k: nat) -> nat
    decreases k,
{
    if k == 0 {
        1
    } else {
        10 * pow10((k - 1) as nat)
    }
}

/// The bytes `/Count`.
pub open spec fn count_key() -> Seq<u8> {
    seq![47u8, 67u8, 111u8, 117u8, 110u8, 116u8]
}

/// Number of bytes examined after each key.
pub const COUNT_WINDOW: usize = 16;

/// The largest number found after the keys in `rest`, starting from `best`.
pub open spec fn scan_counts(rest: Seq<u8>, best: Option<nat>) -> Option<nat>
    decreases rest.len(),
{
    let pos = bytes_find(rest, count_key());
    if pos < 0 || pos + 6 > rest.len() {
        best
    } else {
        let after = rest.skip(pos + 6);
        let w = after.take(if after.len() < 16 { after.len() as int } else { 16 });
        let num = digit_run(w, Seq::empty());
        let best2 = if num.len() == 0 {
            best
        } else {
            match best {
                None => Some(digits_num(num)),
                Some(b) => Some(if b < digits_num(num) { digits_num(num) } else { b }),
            }
        };
        scan_counts(after, best2)
    }
}

/// The page count of a PDF: the largest `/Count`, if it is positive.
pub open spec fn page_count(pdf: Seq<u8>) -> Option<nat> {
    match scan_counts(pdf, None) {
        Some(n) => if n > 0 { Some(n) } else { None },
        None => None,
    }
}

/// The value of an optional count.
pub open spec fn count_view(o: Option<u64>) -> Option<nat> {
    match o {
        Some(n) => Some(n as nat),
        None => None,
    }
}

proof fn lemma_digit_run_len(w: Seq<u8>, acc: Seq<u8>)
    ensures
        digit_run(w, acc).len() <= acc.len() + w.len(),
    decreases w.len(),
{
    if w.len() > 0 {
        if is_digit_byte(w[0]) {
            lemma_digit_run_len(w.drop_first(), acc.push(w[0]));
        } else if acc.len() == 0 {
            lemma_digit_run_len(w.drop_first(), acc);
        }
    }
}

/// Reads the number after a key at `at`, within the window.
fn number_at(data: &[u8], at: usize) -> (r: Option<u64>)
    requires
        at <= data@.len(),
    ensures
        ({
            let after = data@.skip(at as int);
            let w = after.take(if after.len() < 16 { after.len() as int } else { 16 });
            let num = digit_run(w, Seq::empty());
            match r {
                Some(v) => num.len() > 0 && v as nat == digits_num(num),
                None => num.len() == 0,
            }
        }),
{
    let ghost after = data@.skip(at as int);
    let end: usize = if data.len() - at < COUNT_WINDOW { data.len() } else { at + COUNT_WINDOW };
    let ghost w = after.take((end - at) as int);
    let mut j: usize = at;
    let mut val: u64 = 0;
    let mut cnt: usize = 0;
    let ghost mut acc: Seq<u8> = Seq::empty();
    assert(w.skip(0) =~= w);
    while j < end
        invariant
            at <= j <= end <= data@.len(),
            end - at <= 16,
            w == data@.skip(at as int).take((end - at) as int),
            digit_run(w, Seq::empty()) == digit_run(w.skip((j - at) as int), acc),
            cnt == acc.len(),
            cnt <= j - at,
            val as nat == digits_num(acc),
            val < pow10(acc.len()),
            forall|k: int| 0 <= k < acc.len() ==> is_digit_byte(#[trigger] acc[k]),
        ensures
            digit_run(w, Seq::empty()) == acc,
            cnt == acc.len(),
            val as nat == digits_num(acc),
        decreases end - j,
    {
        let b = data[j];
        let ghost rest = w.skip((j - at) as int);
        assert(rest[0] == b);
        assert(rest.drop_first() =~= w.skip((j + 1 - at) as int));
        if 48 <= b && b <= 57 {
            let d: u64 = (b - 48) as u64;
            proof {
                assert(acc.len() < 16);
                lemma_pow10_bound(acc.len());
                assert(acc.push(b).drop_last() =~= acc);
            }
            val = val * 10 + d;
            cnt = cnt + 1;
            proof {
                acc = acc.push(b);
            }
        } else if cnt > 0 {
            break;
        }
        j = j + 1;
        proof {
            if j == end {
                assert(w.skip((j - at) as int).len() == 0);
            }
        }
    }
    if cnt > 0 {
        Some(val)
    } else {
        None
    }
}

proof fn lemma_pow10_bound(k: nat)
    requires
        k < 16,
    ensures
        10 * pow10(k) <= 10000000000000000,
    decreases 16 - k,
{
    if k < 15 {
        lemma_pow10_bound(k + 1);
        assert(pow10(k + 1) == 10 * pow10(k));
    } else {
        reveal_with_fuel(pow10, 16);
    }
}

/// Best-effort page count of a PDF: the largest number that follows a
/// `/Count` key (within 16 bytes), if any is positive.
pub fn pdf_page_count(pdf_bytes: &[u8]) -> (r: Option<u64>)
    ensures
        count_view(r) == page_count(pdf_bytes@),
{
    let key: Vec<u8> = vec![47u8, 67u8, 111u8, 117u8, 110u8, 116u8];
    assert(key@ =~= count_key());
    let mut best: Option<u64> = None;
    let mut start: usize = 0;
    assert(pdf_bytes@.skip(0) =~= pdf_bytes@);
    loop
        invariant
            start <= pdf_bytes@.len(),
            key@ == count_key(),
            scan_counts(pdf_bytes@, None) == scan_counts(pdf_bytes@.skip(start as int), count_view(best)),
        ensures
            scan_counts(pdf_bytes@, None) == count_view(best),
        decreases pdf_bytes@.len() - start,
    {
        let ghost rest = pdf_bytes@.skip(start as int);
        let pos = match find_from(pdf_bytes, start, key.as_slice()) {
            Some(p) => p,
            None => break,
        };
        assert(key@.len() == 6);
        let after_at = pos + 6;
        assert(rest.skip(pos - start + 6) =~= pdf_bytes@.skip(after_at as int));
        let n = number_at(pdf_bytes, after_at);
        match n {
            Some(v) => {
                best = match best {
                    None => Some(v),
                    Some(b) => Some(if b < v { v } else { b }),
                };
            },
            None => {},
        }
        start = after_at;
    }
    match best {
        Some(n) => if n > 0 { Some(n) } else { None },
        None => None,
    }
}

} // verus!
