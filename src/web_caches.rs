//! Cache generations: directories named after a client version `x.y.z[.w]`.

use vstd::prelude::*;

use crate::gacha::Error;
use crate::text::{push_char, utf8_of};

verus! {

/// A cache generation's version; compared field by field, `major` first.
#[derive(Debug, Clone, Copy, PartialEq, Eq, Structural)]
pub struct WebCachesVersion {
    pub major: u8,
    pub minor: u8,
    pub patch: u8,
    pub build: u8,
}

/// The dot-separated fields of `b`, as `str::split('.')` gives them.
pub open spec fn split_dots(b: Seq<u8>) -> Seq<Seq<u8>>
    decreases b.len(),
{
    if b.len() == 0 {
        seq![Seq::empty()]
    } else {
        let r = split_dots(b.drop_last());
        if b.last() == 0x2eu8 {
            r.push(Seq::empty())
        } else {
            r.update(r.len() - 1, r.last().push(b.last()))
        }
    }
}

pub open spec fn is_digit(c: u8) -> bool {
    0x30u8 <= c <= 0x39u8
}

/// The decimal value of a run of ASCII digits.
pub open spec fn digits_value(d: Seq<u8>) -> nat
    decreases d.len(),
{
    if d.len() == 0 {
        0
    } else {
        digits_value(d.drop_last()) * 10 + (d.last() - 0x30u8) as nat
    }
}

/// `p` without a leading `+`.
pub open spec fn unsigned_part(p: Seq<u8>) -> Seq<u8> {
    if p.len() > 0 && p[0] == 0x2bu8 {
        p.drop_first()
    } else {
        p
    }
}

pub open spec fn all_digits(d: Seq<u8>) -> bool {
    forall|i: int| 0 <= i < d.len() ==> is_digit(#[trigger] d[i])
}

/// What `u8::from_str` gives: an optional `+`, then one or more digits
/// whose value fits in a byte.
pub open spec fn parse_u8_spec(p: Seq<u8>) -> Option<u8> {
    let d = unsigned_part(p);
    if d.len() > 0 && all_digits(d) && digits_value(d) <= 255 {
        Some(digits_value(d) as u8)
    } else {
        None
    }
}

/// The version that a directory name (as bytes) stands for: three or four
/// byte-sized fields, the fourth 0 when absent.
pub open spec fn version_spec(b: Seq<u8>) -> Option<WebCachesVersion> {
    let parts = split_dots(b);
    if parts.len() < 3 || parts.len() > 4 {
        None
    } else {
        let build = if parts.len() >= 4 {
            parse_u8_spec(parts[3])
        } else {
            Some(0u8)
        };
        match (parse_u8_spec(parts[0]), parse_u8_spec(parts[1]), parse_u8_spec(parts[2]), build) {
            (Some(a), Some(b), Some(c), Some(d)) => Some(
                WebCachesVersion { major: a, minor: b, patch: c, build: d },
            ),
            _ => None,
        }
    }
}

/// `a` is not newer than `b`.
pub open spec fn version_le(a: WebCachesVersion, b: WebCachesVersion) -> bool {
    a.major < b.major || (a.major == b.major && (a.minor < b.minor || (a.minor == b.minor && (
    a.patch < b.patch || (a.patch == b.patch && a.build <= b.build)))))
}

pub open spec fn digit_char(d: nat) -> char {
    if d == 0 {
        '0'
    } else if d == 1 {
        '1'
    } else if d == 2 {
        '2'
    } else if d == 3 {
        '3'
    } else if d == 4 {
        '4'
    } else if d == 5 {
        '5'
    } else if d == 6 {
        '6'
    } else if d == 7 {
        '7'
    } else if d == 8 {
        '8'
    } else {
        '9'
    }
}

/// The decimal digits of `n`, without leading zeros.
pub open spec fn decimal(n: nat) -> Seq<char>
    decreases n,
{
    if n < 10 {
        seq![digit_char(n)]
    } else {
        decimal(n / 10).push(digit_char(n % 10))
    }
}

/// The text `major.minor.patch.build`.
pub open spec fn version_text(v: WebCachesVersion) -> Seq<char> {
    decimal(v.major as nat) + seq!['.'] + decimal(v.minor as nat) + seq!['.'] + decimal(
        v.patch as nat,
    ) + seq!['.'] + decimal(v.build as nat)
}

fn digit(d: u8) -> (c: char)
    requires
        d < 10,
    ensures
        c == digit_char(d as nat),
{
    match d {
        0 => '0',
        1 => '1',
        2 => '2',
        3 => '3',
        4 => '4',
        5 => '5',
        6 => '6',
        7 => '7',
        8 => '8',
        _ => '9',
    }
}

fn push_decimal(s: &mut String, n: u8)
    ensures
        final(s)@ == old(s)@ + decimal(n as nat),
{
    if n >= 100 {
        push_char(s, digit(n / 100));
        push_char(s, digit((n / 10) % 10));
        push_char(s, digit(n % 10));
        assert(decimal((n / 100) as nat) == seq![digit_char((n / 100) as nat)]);
        assert(decimal((n / 10) as nat) == decimal((n / 100) as nat).push(
            digit_char(((n / 10) % 10) as nat),
        ));
        assert(decimal(n as nat) == decimal((n / 10) as nat).push(digit_char((n % 10) as nat)));
    } else if n >= 10 {
        push_char(s, digit(n / 10));
        push_char(s, digit(n % 10));
        assert(decimal((n / 10) as nat) == seq![digit_char((n / 10) as nat)]);
        assert(decimal(n as nat) == decimal((n / 10) as nat).push(digit_char((n % 10) as nat)));
    } else {
        push_char(s, digit(n));
    }
    assert(s@ =~= old(s)@ + decimal(n as nat));
}

/// Parses one field as `u8::from_str` does.
fn parse_u8(p: &Vec<u8>) -> (r: Option<u8>)
    ensures
        r == parse_u8_spec(p@),
{
    let start: usize = if p.len() > 0 && p[0] == 0x2bu8 {
        1
    } else {
        0
    };
    let ghost d = unsigned_part(p@);
    assert(d =~= p@.subrange(start as int, p@.len() as int));
    if start >= p.len() {
        return None;
    }
    // The value so far, held at 256 once it no longer fits in a byte.
    let mut acc: u32 = 0;
    let mut i: usize = start;
    while i < p.len()
        invariant
            start <= i <= p@.len(),
            d == p@.subrange(start as int, p@.len() as int),
            d == unsigned_part(p@),
            forall|k: int| start <= k < i ==> is_digit(#[trigger] p@[k]),
            acc == if digits_value(d.take(i - start)) > 255 {
                256
            } else {
                digits_value(d.take(i - start))
            },
        decreases p.len() - i,
    {
        let c = p[i];
        if c < 0x30u8 || c > 0x39u8 {
            assert(d[i - start] == p@[i as int]);
            assert(!is_digit(d[i - start]));
            assert(!(forall|k: int| 0 <= k < d.len() ==> is_digit(#[trigger] d[k])));
            return None;
        }
        proof {
            assert(d.take(i - start + 1).drop_last() =~= d.take(i - start));
        }
        let next = acc * 10 + (c - 0x30u8) as u32;
        acc = if next > 255 {
            256
        } else {
            next
        };
        i = i + 1;
    }
    assert(d.take(i - start) =~= d);
    assert forall|k: int| 0 <= k < d.len() implies is_digit(#[trigger] d[k]) by {
        assert(d[k] == p@[start + k]);
    }
    if acc > 255 {
        None
    } else {
        Some(acc as u8)
    }
}

/// Splits `b` at every `.`.
fn split_at_dots(b: &[u8]) -> (r: Vec<Vec<u8>>)
    ensures
        r@.map_values(|p: Vec<u8>| p@) == split_dots(b@),
{
    let mut parts: Vec<Vec<u8>> = Vec::new();
    parts.push(Vec::new());
    let mut i: usize = 0;
    assert(parts@.map_values(|p: Vec<u8>| p@) =~= split_dots(b@.take(0)));
    while i < b.len()
        invariant
            i <= b@.len(),
            parts@.len() >= 1,
            parts@.map_values(|p: Vec<u8>| p@) == split_dots(b@.take(i as int)),
        decreases b.len() - i,
    {
        let ghost before = parts@.map_values(|p: Vec<u8>| p@);
        proof {
            assert(b@.take(i + 1).drop_last() =~= b@.take(i as int));
        }
        if b[i] == 0x2eu8 {
            parts.push(Vec::new());
            assert(parts@.map_values(|p: Vec<u8>| p@) =~= split_dots(b@.take(i + 1)));
        } else {
            let last = parts.len() - 1;
            let mut field = parts.pop().unwrap();
            field.push(b[i]);
            parts.push(field);
            assert(parts@.map_values(|p: Vec<u8>| p@) =~= before.update(
                last as int,
                before[last as int].push(b@[i as int]),
            ));
        }
        i = i + 1;
    }
    assert(b@.take(i as int) =~= b@);
    parts
}

impl WebCachesVersion {
    /// Parses a directory name `x.y.z` or `x.y.z.w` (`w` is 0 when absent).
    pub fn parse(s: &str) -> (r: Result<WebCachesVersion, Error>)
        ensures
            match version_spec(utf8_of(s@)) {
                Some(v) => r == Ok::<WebCachesVersion, Error>(v),
                None => r == Err::<WebCachesVersion, Error>(Error::WebCaches),
            },
    {
        let parts = split_at_dots(s.as_bytes());
        proof {
            assert(parts@.map_values(|p: Vec<u8>| p@).len() == parts@.len());
        }
        if parts.len() < 3 || parts.len() > 4 {
            return Err(Error::WebCaches);
        }
        let major = parse_u8(&parts[0]);
        let minor = parse_u8(&parts[1]);
        let patch = parse_u8(&parts[2]);
        let build = if parts.len() >= 4 {
            parse_u8(&parts[3])
        } else {
            Some(0u8)
        };
        proof {
            let views = parts@.map_values(|p: Vec<u8>| p@);
            assert(views[0] == parts@[0]@);
            assert(views[1] == parts@[1]@);
            assert(views[2] == parts@[2]@);
            if parts@.len() >= 4 {
                assert(views[3] == parts@[3]@);
            }
        }
        match (major, minor, patch, build) {
            (Some(a), Some(b), Some(c), Some(d)) => Ok(
                WebCachesVersion { major: a, minor: b, patch: c, build: d },
            ),
            _ => Err(Error::WebCaches),
        }
    }

    /// The version as `major.minor.patch.build`.
    pub fn version(&self) -> (r: String)
        ensures
            r@ == version_text(*self),
    {
        let mut s = String::new();
        push_decimal(&mut s, self.major);
        push_char(&mut s, '.');
        push_decimal(&mut s, self.minor);
        push_char(&mut s, '.');
        push_decimal(&mut s, self.patch);
        push_char(&mut s, '.');
        push_decimal(&mut s, self.build);
        assert(s@ =~= version_text(*self));
        s
    }

    /// Whether this version is not newer than `other`.
    pub fn not_newer_than(&self, other: &WebCachesVersion) -> (r: bool)
        ensures
            r == version_le(*self, *other),
    {
        self.major < other.major || (self.major == other.major && (self.minor < other.minor || (
        self.minor == other.minor && (self.patch < other.patch || (self.patch == other.patch
            && self.build <= other.build)))))
    }
}

/// The bytes of an ASCII text.
pub open spec fn ascii_bytes(s: Seq<char>) -> Seq<u8> {
    s.map_values(|c: char| c as u8)
}

proof fn lemma_digit_char(d: nat)
    requires
        d < 10,
    ensures
        digit_char(d) as u32 == 0x30 + d,
{
}

proof fn lemma_decimal_ascii(n: nat)
    ensures
        vstd::utf8::is_ascii_chars(decimal(n)),
        decimal(n).len() > 0,
        all_digits(ascii_bytes(decimal(n))),
        digits_value(ascii_bytes(decimal(n))) == n,
    decreases n,
{
    let b = ascii_bytes(decimal(n));
    if n < 10 {
        lemma_digit_char(n);
        assert(b =~= seq![(0x30 + n) as u8]);
        assert(b.drop_last() =~= Seq::<u8>::empty());
        assert(digits_value(b.drop_last()) == 0);
        assert(digits_value(b) == digits_value(b.drop_last()) * 10 + (b.last() - 0x30u8) as nat);
    } else {
        lemma_decimal_ascii(n / 10);
        lemma_digit_char(n % 10);
        let h = ascii_bytes(decimal(n / 10));
        assert(b =~= h.push((0x30 + n % 10) as u8));
        assert(b.drop_last() =~= h);
        assert(digits_value(b) == digits_value(b.drop_last()) * 10 + (b.last() - 0x30u8) as nat);
        assert(n == (n / 10) * 10 + n % 10);
        assert forall|i: int| 0 <= i < b.len() implies is_digit(#[trigger] b[i]) by {
            if i < h.len() {
                assert(b[i] == h[i]);
            }
        }
    }
}

/// Splitting text without a dot gives the text itself.
proof fn lemma_split_no_dot(x: Seq<u8>)
    requires
        forall|i: int| 0 <= i < x.len() ==> x[i] != 0x2eu8,
    ensures
        split_dots(x) == seq![x],
    decreases x.len(),
{
    if x.len() > 0 {
        lemma_split_no_dot(x.drop_last());
        assert(x.drop_last().push(x.last()) =~= x);
        assert(seq![x.drop_last()].update(0, x.drop_last().push(x.last())) =~= seq![x]);
    } else {
        assert(x =~= Seq::<u8>::empty());
    }
}

/// Splitting `a.x`, where `x` has no dot, adds `x` as the last field.
proof fn lemma_split_after_dot(a: Seq<u8>, x: Seq<u8>)
    requires
        forall|i: int| 0 <= i < x.len() ==> x[i] != 0x2eu8,
    ensures
        split_dots(a + seq![0x2eu8] + x) == split_dots(a).push(x),
    decreases x.len(),
{
    let b = a + seq![0x2eu8] + x;
    if x.len() == 0 {
        assert(b.drop_last() =~= a);
        assert(x =~= Seq::<u8>::empty());
    } else {
        lemma_split_after_dot(a, x.drop_last());
        assert(b.drop_last() =~= a + seq![0x2eu8] + x.drop_last());
        let r = split_dots(a).push(x.drop_last());
        assert(x.drop_last().push(x.last()) =~= x);
        assert(r.update(r.len() - 1, r.last().push(x.last())) =~= split_dots(a).push(x));
    }
}

proof fn lemma_field_bytes(n: u8)
    ensures
        forall|i: int| 0 <= i < ascii_bytes(decimal(n as nat)).len() ==> ascii_bytes(decimal(n as nat))[i] != 0x2eu8,
        parse_u8_spec(ascii_bytes(decimal(n as nat))) == Some(n),
{
    lemma_decimal_ascii(n as nat);
    let b = ascii_bytes(decimal(n as nat));
    assert(b[0] != 0x2bu8);
    assert(unsigned_part(b) == b);
}

/// Parsing the text of a version gives the version back.
pub proof fn lemma_version_round_trip(v: WebCachesVersion)
    ensures
        version_spec(utf8_of(version_text(v))) == Some(v),
{
    let da = decimal(v.major as nat);
    let db = decimal(v.minor as nat);
    let dc = decimal(v.patch as nat);
    let dd = decimal(v.build as nat);
    lemma_decimal_ascii(v.major as nat);
    lemma_decimal_ascii(v.minor as nat);
    lemma_decimal_ascii(v.patch as nat);
    lemma_decimal_ascii(v.build as nat);
    lemma_field_bytes(v.major);
    lemma_field_bytes(v.minor);
    lemma_field_bytes(v.patch);
    lemma_field_bytes(v.build);
    let t = version_text(v);
    assert(vstd::utf8::is_ascii_chars(t)) by {
        assert forall|i: int| 0 <= i < t.len() implies '\0' <= #[trigger] t[i] <= '\u{7f}' by {
            let k1 = da.len() as int;
            let k2 = k1 + 1 + db.len();
            let k3 = k2 + 1 + dc.len();
            if i < k1 {
                assert(t[i] == da[i]);
            } else if i == k1 {
            } else if i < k2 {
                assert(t[i] == db[i - k1 - 1]);
            } else if i == k2 {
            } else if i < k3 {
                assert(t[i] == dc[i - k2 - 1]);
            } else if i == k3 {
            } else {
                assert(t[i] == dd[i - k3 - 1]);
            }
        }
    }
    vstd::utf8::is_ascii_chars_encode_utf8(t);
    let b = utf8_of(t);
    assert(b =~= ascii_bytes(t));
    let (ba, bb, bc, bd) = (ascii_bytes(da), ascii_bytes(db), ascii_bytes(dc), ascii_bytes(dd));
    let dot = seq![0x2eu8];
    assert(ascii_bytes(t) =~= ba + dot + bb + dot + bc + dot + bd);
    lemma_split_no_dot(ba);
    lemma_split_after_dot(ba, bb);
    lemma_split_after_dot(ba + dot + bb, bc);
    lemma_split_after_dot(ba + dot + bb + dot + bc, bd);
    let parts = split_dots(b);
    assert(parts =~= seq![ba, bb, bc, bd]);
}

impl std::str::FromStr for WebCachesVersion {
    type Err = Error;

    fn from_str(s: &str) -> (r: Result<WebCachesVersion, Error>)
        ensures
            match version_spec(utf8_of(s@)) {
                Some(v) => r == Ok::<WebCachesVersion, Error>(v),
                None => r == Err::<WebCachesVersion, Error>(Error::WebCaches),
            },
    {
        WebCachesVersion::parse(s)
    }
}

/// The newest version among directory names; names that are not versions
/// are passed over.
pub fn latest_web_caches_version(names: &Vec<String>) -> (r: Option<WebCachesVersion>)
    ensures
        r is None <==> (forall|i: int|
            0 <= i < names@.len() ==> version_spec(utf8_of(#[trigger] names@[i]@)) is None),
        r matches Some(v) ==> (exists|i: int|
            0 <= i < names@.len() && version_spec(utf8_of(#[trigger] names@[i]@)) == Some(v)),
        r matches Some(v) ==> (forall|i: int|
            0 <= i < names@.len() && #[trigger] version_spec(utf8_of(names@[i]@)) is Some
                ==> version_le(version_spec(utf8_of(names@[i]@))->Some_0, v)),
{
    let mut best: Option<WebCachesVersion> = None;
    let mut i: usize = 0;
    while i < names.len()
        invariant
            i <= names@.len(),
            best is None <==> (forall|k: int|
                0 <= k < i ==> version_spec(utf8_of(#[trigger] names@[k]@)) is None),
            best matches Some(v) ==> (exists|k: int|
                0 <= k < i && version_spec(utf8_of(#[trigger] names@[k]@)) == Some(v)),
            best matches Some(v) ==> (forall|k: int|
                0 <= k < i && #[trigger] version_spec(utf8_of(names@[k]@)) is Some
                    ==> version_le(version_spec(utf8_of(names@[k]@))->Some_0, v)),
        decreases names.len() - i,
    {
        match WebCachesVersion::parse(names[i].as_str()) {
            Ok(v) => {
                let replace = match best {
                    None => true,
                    Some(b) => b.not_newer_than(&v),
                };
                if replace {
                    best = Some(v);
                }
            },
            Err(_) => {},
        }
        i = i + 1;
    }
    best
}

} // verus!
