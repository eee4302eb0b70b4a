use vstd::prelude::*;

verus! {

/// Two bytes, most significant first.
pub open spec fn u16_be(v: u16) -> Seq<u8> {
    seq![(v / 256) as u8, (v % 256) as u8]
}

/// Four bytes, most significant first.
pub open spec fn u32_be(v: u32) -> Seq<u8> {
    seq![
        (v / 0x100_0000) as u8,
        ((v / 0x1_0000) % 256) as u8,
        ((v / 256) % 256) as u8,
        (v % 256) as u8,
    ]
}

/// The big-endian 16-bit value of the two bytes at `at`.
pub open spec fn be_u16_at(b: Seq<u8>, at: int) -> u16 {
    (b[at] as int * 256 + b[at + 1] as int) as u16
}

/// The big-endian 32-bit value of the four bytes at `at`.
pub open spec fn be_u32_at(b: Seq<u8>, at: int) -> u32 {
    (b[at] as int * 0x100_0000 + b[at + 1] as int * 0x1_0000 + b[at + 2] as int * 256
        + b[at + 3] as int) as u32
}

/// `s` cut to `width` bytes, or padded on the right with zero bytes up to `width`.
pub open spec fn fixed_field(s: Seq<u8>, width: nat) -> Seq<u8> {
    if s.len() >= width {
        s.take(width as int)
    } else {
        s + Seq::new((width - s.len()) as nat, |i: int| 0u8)
    }
}

pub proof fn lemma_u32_be_inverse(v: u32)
    ensures
        be_u32_at(u32_be(v), 0) == v,
{
    let s = u32_be(v);
    assert(s[0] as int * 0x100_0000 + s[1] as int * 0x1_0000 + s[2] as int * 256 + s[3] as int
        == v) by (nonlinear_arith)
        requires
            s[0] == v / 0x100_0000,
            s[1] == (v / 0x1_0000) % 256,
            s[2] == (v / 256) % 256,
            s[3] == v % 256,
    ;
}

pub proof fn lemma_be_u32_inverse(b: Seq<u8>, at: int)
    requires
        0 <= at,
        at + 4 <= b.len(),
    ensures
        u32_be(be_u32_at(b, at)) == b.subrange(at, at + 4),
{
    let (a0, a1, a2, a3) = (b[at], b[at + 1], b[at + 2], b[at + 3]);
    let v: int = a0 as int * 0x100_0000 + a1 as int * 0x1_0000 + a2 as int * 256 + a3 as int;
    assert(v / 0x100_0000 == a0 && (v / 0x1_0000) % 256 == a1 && (v / 256) % 256 == a2 && v
        % 256 == a3) by (nonlinear_arith)
        requires
            v == a0 as int * 0x100_0000 + a1 as int * 0x1_0000 + a2 as int * 256 + a3 as int,
            0 <= a0 < 256,
            0 <= a1 < 256,
            0 <= a2 < 256,
            0 <= a3 < 256,
    ;
    assert(u32_be(be_u32_at(b, at)) =~= b.subrange(at, at + 4));
}

pub fn push_u16_be(buf: &mut Vec<u8>, v: u16)
    ensures
        final(buf)@ == old(buf)@ + u16_be(v),
{
    buf.push((v / 256) as u8);
    buf.push((v % 256) as u8);
    assert(buf@ =~= old(buf)@ + u16_be(v));
}

pub fn push_u32_be(buf: &mut Vec<u8>, v: u32)
    ensures
        final(buf)@ == old(buf)@ + u32_be(v),
{
    buf.push((v / 0x100_0000) as u8);
    buf.push(((v / 0x1_0000) % 256) as u8);
    buf.push(((v / 256) % 256) as u8);
    buf.push((v % 256) as u8);
    assert(buf@ =~= old(buf)@ + u32_be(v));
}

pub fn read_u16_be(b: &[u8], at: usize) -> (r: u16)
    requires
        at + 2 <= b@.len(),
    ensures
        r == be_u16_at(b@, at as int),
{
    (b[at] as u16) * 256 + b[at + 1] as u16
}

pub fn read_u32_be(b: &[u8], at: usize) -> (r: u32)
    requires
        at + 4 <= b@.len(),
    ensures
        r == be_u32_at(b@, at as int),
{
    (b[at] as u32) * 0x100_0000 + (b[at + 1] as u32) * 0x1_0000 + (b[at + 2] as u32) * 256
        + b[at + 3] as u32
}

/// Appends `s` as a field of `width` bytes: cut when longer, zero-padded when shorter.
pub fn push_fixed_field(buf: &mut Vec<u8>, s: &[u8], width: usize)
    ensures
        final(buf)@ == old(buf)@ + fixed_field(s@, width as nat),
{
    let n: usize = if s.len() < width { s.len() } else { width };
    let mut i: usize = 0;
    while i < n
        invariant
            n <= s@.len(),
            n <= width,
            i <= n,
            buf@ == old(buf)@ + s@.take(i as int),
        decreases n - i,
    {
        buf.push(s[i]);
        i = i + 1;
        assert(s@.take(i as int) =~= s@.take(i - 1) + seq![s@[i - 1]]);
    }
    let mut j: usize = n;
    while j < width
        invariant
            n <= j <= width,
            n <= s@.len(),
            buf@ == old(buf)@ + s@.take(n as int) + Seq::new((j - n) as nat, |k: int| 0u8),
        decreases width - j,
    {
        buf.push(0u8);
        j = j + 1;
        assert(Seq::new((j - n) as nat, |k: int| 0u8) =~= Seq::new((j - 1 - n) as nat, |k: int| 0u8).push(0u8));
    }
    if s.len() < width {
        assert(s@.take(n as int) =~= s@);
    } else {
        assert(Seq::new((j - n) as nat, |k: int| 0u8) =~= Seq::<u8>::empty());
    }
    assert(buf@ =~= old(buf)@ + fixed_field(s@, width as nat));
}


/// `s` without its trailing zero bytes.
pub open spec fn trim_nul(s: Seq<u8>) -> Seq<u8>
    decreases s.len(),
{
    if s.len() > 0 && s.last() == 0 {
        trim_nul(s.drop_last())
    } else {
        s
    }
}

pub proof fn lemma_trim_nul_prefix(s: Seq<u8>)
    ensures
        trim_nul(s).len() <= s.len(),
        trim_nul(s) == s.take(trim_nul(s).len() as int),
    decreases s.len(),
{
    if s.len() > 0 && s.last() == 0 {
        lemma_trim_nul_prefix(s.drop_last());
        assert(s.drop_last().take(trim_nul(s).len() as int) =~= s.take(trim_nul(s).len() as int));
    } else {
        assert(s.take(s.len() as int) =~= s);
    }
}

/// Zero padding added by a fixed field is exactly what trimming takes away.
pub proof fn lemma_trim_fixed_field(s: Seq<u8>, width: nat)
    requires
        s.len() <= width,
    ensures
        trim_nul(fixed_field(s, width)) == trim_nul(s),
    decreases width - s.len(),
{
    let f = fixed_field(s, width);
    if s.len() < width {
        let shorter = fixed_field(s, (width - 1) as nat);
        assert(f.drop_last() =~= shorter);
        assert(f.last() == 0);
        lemma_trim_fixed_field(s, (width - 1) as nat);
    } else {
        assert(f =~= s);
    }
}

/// Padding a trimmed field back to its width gives the field again.
pub proof fn lemma_pad_trimmed(s: Seq<u8>)
    ensures
        fixed_field(trim_nul(s), s.len()) == s,
    decreases s.len(),
{
    lemma_trim_nul_prefix(s);
    if s.len() > 0 && s.last() == 0 {
        let d = s.drop_last();
        lemma_pad_trimmed(d);
        lemma_trim_nul_prefix(d);
        let t = trim_nul(d);
        if t.len() < d.len() {
            assert(fixed_field(t, s.len()) =~= fixed_field(t, d.len()).push(0u8));
        } else {
            assert(fixed_field(t, s.len()) =~= t.push(0u8));
            assert(fixed_field(t, d.len()) =~= t);
        }
        assert(d.push(0u8) =~= s);
    } else {
        assert(fixed_field(s, s.len()) =~= s);
    }
}

pub open spec fn is_ascii_bytes(s: Seq<u8>) -> bool {
    forall|i: int| 0 <= i < s.len() ==> s[i] < 128
}

/// The `width` bytes at `start`, without the zero padding on their right.
pub fn trimmed_field(b: &[u8], start: usize, width: usize) -> (r: Vec<u8>)
    requires
        start + width <= b@.len(),
    ensures
        r@ == trim_nul(b@.subrange(start as int, start + width)),
{
    let n: usize = b.len();
    let mut k: usize = start + width;
    while k > start && b[k - 1] == 0
        invariant
            start <= k <= start + width <= b@.len(),
            trim_nul(b@.subrange(start as int, start + width)) == trim_nul(
                b@.subrange(start as int, k as int),
            ),
        decreases k,
    {
        assert(b@.subrange(start as int, k as int).drop_last() =~= b@.subrange(
            start as int,
            k - 1,
        ));
        k = k - 1;
    }
    copy_range(b, start, k)
}

/// The bytes of `b` from `start` up to `end`.
pub fn copy_range(b: &[u8], start: usize, end: usize) -> (r: Vec<u8>)
    requires
        start <= end <= b@.len(),
    ensures
        r@ == b@.subrange(start as int, end as int),
{
    let mut r: Vec<u8> = Vec::new();
    let mut i: usize = start;
    while i < end
        invariant
            start <= i <= end <= b@.len(),
            r@ == b@.subrange(start as int, i as int),
        decreases end - i,
    {
        r.push(b[i]);
        i = i + 1;
        assert(r@ =~= b@.subrange(start as int, i as int));
    }
    r
}

pub fn all_ascii(b: &[u8], start: usize, end: usize) -> (r: bool)
    requires
        start <= end <= b@.len(),
    ensures
        r == is_ascii_bytes(b@.subrange(start as int, end as int)),
{
    let mut i: usize = start;
    while i < end
        invariant
            start <= i <= end <= b@.len(),
            forall|j: int| start <= j < i ==> b@[j] < 128,
        decreases end - i,
    {
        if b[i] >= 128 {
            assert(b@.subrange(start as int, end as int)[i - start] >= 128);
            return false;
        }
        i = i + 1;
    }
    assert forall|j: int| 0 <= j < end - start implies b@.subrange(start as int, end as int)[j]
        < 128 by {
        assert(b@[start + j] < 128);
    }
    true
}

pub open spec fn is_digit(c: u8) -> bool {
    48 <= c <= 57
}

pub open spec fn all_digits(s: Seq<u8>) -> bool {
    forall|i: int| 0 <= i < s.len() ==> is_digit(s[i])
}

/// The value of a string of decimal digits.
pub open spec fn decimal_value(s: Seq<u8>) -> nat
    decreases s.len(),
{
    if s.len() == 0 {
        0
    } else {
        decimal_value(s.drop_last()) * 10 + (s.last() - 48) as nat
    }
}

/// What follows an optional leading `+`.
pub open spec fn unsigned_digits(s: Seq<u8>) -> Seq<u8> {
    if s.len() > 0 && s[0] == 43 {
        s.drop_first()
    } else {
        s
    }
}

/// Text read as an unsigned 32-bit number: an optional `+`, then at least one decimal digit,
/// with a value that fits.
pub open spec fn parse_u32_spec(s: Seq<u8>) -> Option<u32> {
    let d = unsigned_digits(s);
    if d.len() > 0 && all_digits(d) && decimal_value(d) <= u32::MAX {
        Some(decimal_value(d) as u32)
    } else {
        None
    }
}

proof fn lemma_decimal_prefix(s: Seq<u8>, i: int)
    requires
        0 <= i <= s.len(),
        all_digits(s),
    ensures
        decimal_value(s.take(i)) <= decimal_value(s),
    decreases s.len(),
{
    if i < s.len() {
        assert(s.drop_last().take(i) =~= s.take(i));
        lemma_decimal_prefix(s.drop_last(), i);
    } else {
        assert(s.take(i) =~= s);
    }
}

pub fn parse_u32(s: &[u8]) -> (r: Option<u32>)
    ensures
        r == parse_u32_spec(s@),
{
    let start: usize = if s.len() > 0 && s[0] == 43 {
        1
    } else {
        0
    };
    let ghost d = s@.subrange(start as int, s@.len() as int);
    assert(d =~= unsigned_digits(s@));
    if start == s.len() {
        return None;
    }
    let mut acc: u64 = 0;
    let mut i: usize = start;
    while i < s.len()
        invariant
            start <= i <= s@.len(),
            d == s@.subrange(start as int, s@.len() as int),
            d == unsigned_digits(s@),
            all_digits(d.take(i - start)),
            acc == decimal_value(d.take(i - start)),
            acc <= u32::MAX,
        decreases s@.len() - i,
    {
        let c = s[i];
        if c < 48 || c > 57 {
            assert(d[i - start] == c);
            assert(!all_digits(d));
            return None;
        }
        assert(d.take(i + 1 - start).drop_last() =~= d.take(i - start));
        assert(d.take(i + 1 - start).last() == c);
        acc = acc * 10 + (c - 48) as u64;
        i = i + 1;
        assert(acc == decimal_value(d.take(i - start)));
        assert(all_digits(d.take(i - start)));
        if acc > 0xffff_ffff {
            proof {
                if all_digits(d) {
                    lemma_decimal_prefix(d, i - start);
                }
            }
            return None;
        }
    }
    assert(d.take(i - start) =~= d);
    Some(acc as u32)
}

/// The decimal digits of `n`, without leading zeros.
pub open spec fn decimal_digits(n: nat) -> Seq<u8>
    decreases n,
{
    if n < 10 {
        seq![(48 + n) as u8]
    } else {
        decimal_digits(n / 10).push((48 + n % 10) as u8)
    }
}

pub fn push_decimal(buf: &mut Vec<u8>, n: u32)
    ensures
        final(buf)@ == old(buf)@ + decimal_digits(n as nat),
    decreases n,
{
    if n >= 10 {
        push_decimal(buf, n / 10);
    }
    buf.push(48 + (n % 10) as u8);
    assert(buf@ =~= old(buf)@ + decimal_digits(n as nat));
}

/// The pieces of `s` between occurrences of `sep`, in order.
pub open spec fn split_on(s: Seq<u8>, sep: u8) -> Seq<Seq<u8>>
    decreases s.len(),
{
    if s.len() == 0 {
        seq![Seq::empty()]
    } else {
        let r = split_on(s.drop_last(), sep);
        if s.last() == sep {
            r.push(Seq::empty())
        } else {
            r.update(r.len() - 1, r.last().push(s.last()))
        }
    }
}

/// The contents of each vector of bytes.
pub open spec fn byte_views(v: Seq<Vec<u8>>) -> Seq<Seq<u8>> {
    v.map_values(|p: Vec<u8>| p@)
}

pub fn split_bytes(s: &[u8], sep: u8) -> (r: Vec<Vec<u8>>)
    ensures
        byte_views(r@) == split_on(s@, sep),
{
    let mut parts: Vec<Vec<u8>> = Vec::new();
    let mut cur: Vec<u8> = Vec::new();
    let mut i: usize = 0;
    assert(s@.take(0) =~= Seq::<u8>::empty());
    assert(byte_views(parts@).push(cur@) =~= split_on(s@.take(0), sep));
    while i < s.len()
        invariant
            i <= s@.len(),
            byte_views(parts@).push(cur@) == split_on(s@.take(i as int), sep),
        decreases s@.len() - i,
    {
        let ghost before = byte_views(parts@);
        assert(s@.take(i + 1).drop_last() =~= s@.take(i as int));
        if s[i] == sep {
            parts.push(cur);
            cur = Vec::new();
            assert(byte_views(parts@) =~= before.push(split_on(s@.take(i as int), sep).last()));
        } else {
            cur.push(s[i]);
        }
        i = i + 1;
        assert(byte_views(parts@).push(cur@) =~= split_on(s@.take(i as int), sep));
    }
    let ghost before = byte_views(parts@);
    parts.push(cur);
    assert(s@.take(i as int) =~= s@);
    assert(byte_views(parts@) =~= before.push(cur@));
    parts
}

} // verus!
