//! The integer records of Wavefront OBJ mesh files: the kind of each line and
//! the face records `f v/t/n v/t/n v/t/n`, whose 1-based indices are turned
//! into 0-based ones. Coordinates of `v` and `vn` records are left to the
//! caller, which reads them as floating-point numbers.
use vstd::prelude::*;

verus! {

/// The space that separates the fields of a record.
pub const FIELD_SEPARATOR: u8 = 32;

/// The slash that separates the indices of a face corner.
pub const INDEX_SEPARATOR: u8 = 47;

/// The first index at or after `from` where `s` holds `b`, or the length of `s`.
pub open spec fn next_sep(s: Seq<u8>, from: int, b: u8) -> int
    decreases s.len() - from,
{
    if from >= s.len() {
        s.len() as int
    } else if s[from] == b {
        from
    } else {
        next_sep(s, from + 1, b)
    }
}

/// Where field `k` of `s`, split at each `b`, starts. The field exists when
/// this is at most the length of `s`.
pub open spec fn field_start(s: Seq<u8>, b: u8, k: nat) -> int
    decreases k,
{
    if k == 0 {
        0
    } else {
        next_sep(s, field_start(s, b, (k - 1) as nat), b) + 1
    }
}

/// Field `k` of `s` split at each `b` (empty fields count), if there is one.
pub open spec fn field(s: Seq<u8>, b: u8, k: nat) -> Option<Seq<u8>> {
    let st = field_start(s, b, k);
    if st <= s.len() {
        Some(s.subrange(st, next_sep(s, st, b)))
    } else {
        None
    }
}

/// Every byte of `t` is an ASCII digit.
pub open spec fn all_digits(t: Seq<u8>) -> bool {
    forall|i: int| 0 <= i < t.len() ==> 48 <= #[trigger] t[i] <= 57
}

/// The number that the ASCII digits `t` write in decimal.
pub open spec fn digits_value(t: Seq<u8>) -> nat
    decreases t.len(),
{
    if t.len() == 0 {
        0
    } else {
        digits_value(t.drop_last()) * 10 + (t.last() - 48) as nat
    }
}

/// `t` read as a decimal `u32`: one or more digits, nothing else, in range.
pub open spec fn parse_u32_spec(t: Seq<u8>) -> Option<u32> {
    if t.len() > 0 && all_digits(t) && digits_value(t) <= u32::MAX {
        Some(digits_value(t) as u32)
    } else {
        None
    }
}

/// Field `k` of `s` read as a decimal `u32`.
pub open spec fn parse_field(s: Seq<u8>, b: u8, k: nat) -> Option<u32> {
    match field(s, b, k) {
        Some(f) => parse_u32_spec(f),
        None => None,
    }
}

/// Corner `c` (0, 1 or 2) of the face record `line`, as 0-based vertex and
/// normal indices: the vertex index is the corner's first slash-separated
/// field, the normal index its third; both must be at least 1.
pub open spec fn corner_spec(line: Seq<u8>, c: nat) -> Option<(u32, u32)> {
    match field(line, FIELD_SEPARATOR, c + 1) {
        Some(t) => match (parse_field(t, INDEX_SEPARATOR, 0), parse_field(t, INDEX_SEPARATOR, 2)) {
            (Some(v), Some(n)) => if v >= 1 && n >= 1 {
                Some(((v - 1) as u32, (n - 1) as u32))
            } else {
                None
            },
            _ => None,
        },
        None => None,
    }
}

/// The kinds of record that a mesh file holds.
#[derive(Clone, Copy, Debug, PartialEq, Eq)]
pub enum RecordKind {
    /// A line that starts with `#`.
    Comment,
    /// `v x y z`: a vertex position.
    Vertex,
    /// `vn x y z`: a vertex normal.
    Normal,
    /// `f ...`: a triangle.
    Face,
    /// Anything else, which is skipped.
    Other,
}

/// The kind of record `line` holds, by its first byte (`#`) or its first field.
pub open spec fn record_kind_spec(line: Seq<u8>) -> RecordKind {
    let first = field(line, FIELD_SEPARATOR, 0).unwrap();
    if line.len() > 0 && line[0] == 35 {
        RecordKind::Comment
    } else if first == seq![118u8] {
        RecordKind::Vertex
    } else if first == seq![118u8, 110u8] {
        RecordKind::Normal
    } else if first == seq![102u8] {
        RecordKind::Face
    } else {
        RecordKind::Other
    }
}

/// A triangle of a face record, with 0-based indices.
#[derive(Clone, Copy, Debug, PartialEq, Eq)]
pub struct FaceRecord {
    /// The vertex position of each corner.
    pub vertices: [u32; 3],
    /// The vertex normal of each corner.
    pub normals: [u32; 3],
}

proof fn lemma_next_sep_bounds(s: Seq<u8>, from: int, b: u8)
    requires
        0 <= from <= s.len(),
    ensures
        from <= next_sep(s, from, b) <= s.len(),
        next_sep(s, from, b) < s.len() ==> s[next_sep(s, from, b)] == b,
    decreases s.len() - from,
{
    if from < s.len() && s[from] != b {
        lemma_next_sep_bounds(s, from + 1, b);
    }
}

fn find_sep(s: &[u8], from: usize, b: u8) -> (r: usize)
    requires
        from <= s@.len(),
    ensures
        r == next_sep(s@, from as int, b),
        from <= r <= s@.len(),
{
    let mut i = from;
    while i < s.len() && s[i] != b
        invariant
            from <= i <= s@.len(),
            next_sep(s@, from as int, b) == next_sep(s@, i as int, b),
        decreases s@.len() - i,
    {
        i = i + 1;
    }
    i
}

/// Start and end of field `k` of `s` split at each `b`.
fn find_field(s: &[u8], b: u8, k: usize) -> (r: Option<(usize, usize)>)
    ensures
        match field(s@, b, k as nat) {
            Some(f) => r is Some && r.unwrap().0 <= r.unwrap().1 <= s@.len() && f == s@.subrange(
                r.unwrap().0 as int,
                r.unwrap().1 as int,
            ),
            None => r is None,
        },
{
    let mut st: usize = 0;
    let mut j: usize = 0;
    while j < k
        invariant
            j <= k,
            st == field_start(s@, b, j as nat),
            st <= s@.len(),
        decreases k - j,
    {
        let e = find_sep(s, st, b);
        if e == s.len() {
            proof {
                lemma_field_gone(s@, b, (j + 1) as nat, k as nat);
            }
            return None;
        }
        st = e + 1;
        j = j + 1;
    }
    let e = find_sep(s, st, b);
    Some((st, e))
}

/// Once a field is missing, so is every later one.
proof fn lemma_field_gone(s: Seq<u8>, b: u8, j: nat, k: nat)
    requires
        j <= k,
        field_start(s, b, j) > s.len(),
    ensures
        field_start(s, b, k) > s.len(),
    decreases k - j,
{
    if j < k {
        lemma_field_gone(s, b, j, (k - 1) as nat);
        let st = field_start(s, b, (k - 1) as nat);
        if st <= s.len() {
            lemma_next_sep_bounds(s, st, b);
        }
        if st > s.len() {
            assert(next_sep(s, st, b) == s.len());
        }
    }
}

/// Extending all-digit text never lowers its value.
proof fn lemma_digits_monotone(t: Seq<u8>, j: int)
    requires
        0 <= j <= t.len(),
        all_digits(t),
    ensures
        digits_value(t.subrange(0, j)) <= digits_value(t),
    decreases t.len(),
{
    if j < t.len() {
        let u = t.drop_last();
        assert(all_digits(u)) by {
            assert forall|i: int| 0 <= i < u.len() implies 48 <= #[trigger] u[i] <= 57 by {
                assert(u[i] == t[i]);
            }
        }
        lemma_digits_monotone(u, j);
        assert(u.subrange(0, j) =~= t.subrange(0, j));
    } else {
        assert(t.subrange(0, j) =~= t);
    }
}

/// Reads `s[lo..hi]` as a decimal `u32`.
fn parse_u32_range(s: &[u8], lo: usize, hi: usize) -> (r: Option<u32>)
    requires
        lo <= hi <= s@.len(),
    ensures
        r == parse_u32_spec(s@.subrange(lo as int, hi as int)),
{
    let ghost t = s@.subrange(lo as int, hi as int);
    if lo == hi {
        return None;
    }
    let mut acc: u64 = 0;
    let mut i = lo;
    while i < hi
        invariant
            lo <= i <= hi <= s@.len(),
            t == s@.subrange(lo as int, hi as int),
            all_digits(t.subrange(0, i - lo)),
            acc == digits_value(t.subrange(0, i - lo)),
            acc <= u32::MAX,
        decreases hi - i,
    {
        let d = s[i];
        if d < 48 || d > 57 {
            assert(t[i - lo] == d);
            return None;
        }
        let next = acc * 10 + (d - 48) as u64;
        proof {
            let p = t.subrange(0, i - lo + 1);
            assert(p.drop_last() =~= t.subrange(0, i - lo));
            assert(p.last() == d);
            assert(all_digits(p)) by {
                assert forall|k: int| 0 <= k < p.len() implies 48 <= #[trigger] p[k] <= 57 by {
                    if k < p.len() - 1 {
                        assert(p[k] == t.subrange(0, i - lo)[k]);
                    }
                }
            }
        }
        if next > u32::MAX as u64 {
            proof {
                if all_digits(t) {
                    lemma_digits_monotone(t, i - lo + 1);
                }
            }
            return None;
        }
        acc = next;
        i = i + 1;
    }
    assert(t.subrange(0, hi - lo) =~= t);
    Some(acc as u32)
}

/// Reads field `k` of `s` split at `b` as a decimal `u32`.
fn parse_field_exec(s: &[u8], b: u8, k: usize) -> (r: Option<u32>)
    ensures
        r == parse_field(s@, b, k as nat),
{
    match find_field(s, b, k) {
        Some((lo, hi)) => parse_u32_range(s, lo, hi),
        None => None,
    }
}

/// Corner `c` of a face record.
fn parse_corner(line: &[u8], c: usize) -> (r: Option<(u32, u32)>)
    requires
        c < 3,
    ensures
        r == corner_spec(line@, c as nat),
{
    match find_field(line, FIELD_SEPARATOR, c + 1) {
        Some((lo, hi)) => {
            let t = vstd::slice::slice_subrange(line, lo, hi);
            let v = parse_field_exec(t, INDEX_SEPARATOR, 0);
            let n = parse_field_exec(t, INDEX_SEPARATOR, 2);
            match (v, n) {
                (Some(v), Some(n)) => {
                    if v >= 1 && n >= 1 {
                        Some((v - 1, n - 1))
                    } else {
                        None
                    }
                },
                _ => None,
            }
        },
        None => None,
    }
}

/// The kind of record that `line` holds.
pub fn record_kind(line: &[u8]) -> (r: RecordKind)
    ensures
        r == record_kind_spec(line@),
{
    if line.len() > 0 && line[0] == 35 {
        return RecordKind::Comment;
    }
    let e = find_sep(line, 0, FIELD_SEPARATOR);
    let ghost first = line@.subrange(0, e as int);
    assert(field(line@, FIELD_SEPARATOR, 0) == Some(first));
    if e == 1 && line[0] == 118 {
        assert(first =~= seq![118u8]);
        RecordKind::Vertex
    } else if e == 2 && line[0] == 118 && line[1] == 110 {
        assert(first =~= seq![118u8, 110u8]);
        RecordKind::Normal
    } else if e == 1 && line[0] == 102 {
        assert(first[0] == 102u8);
        assert(first =~= seq![102u8]);
        assert(first != seq![118u8] && first != seq![118u8, 110u8]) by {
            assert(seq![118u8][0] == 118u8);
        }
        RecordKind::Face
    } else {
        assert(first != seq![118u8] && first != seq![118u8, 110u8] && first != seq![102u8]) by {
            if first.len() == 1 {
                assert(first[0] == line[0]);
            }
            if first.len() == 2 {
                assert(first[0] == line[0] && first[1] == line[1]);
            }
        }
        RecordKind::Other
    }
}

/// Reads a face record. Succeeds exactly when `line` is a face record whose
/// three corners each give a vertex index and a normal index of at least 1;
/// fields after the third corner are ignored.
pub fn parse_face(line: &[u8]) -> (r: Option<FaceRecord>)
    ensures
        r is Some <==> (record_kind_spec(line@) == RecordKind::Face && corner_spec(line@, 0) is Some
            && corner_spec(line@, 1) is Some && corner_spec(line@, 2) is Some),
        r is Some ==> forall|c: int|
            0 <= c < 3 ==> (r.unwrap().vertices@[c], r.unwrap().normals@[c]) == corner_spec(
                line@,
                c as nat,
            ).unwrap(),
{
    match record_kind(line) {
        RecordKind::Face => {},
        _ => {
            return None;
        },
    }
    let a = parse_corner(line, 0);
    let b = parse_corner(line, 1);
    let c = parse_corner(line, 2);
    match (a, b, c) {
        (Some(a), Some(b), Some(c)) => {
            let r = FaceRecord { vertices: [a.0, b.0, c.0], normals: [a.1, b.1, c.1] };
            assert forall|k: int| 0 <= k < 3 implies (r.vertices@[k], r.normals@[k]) == corner_spec(
                line@,
                k as nat,
            ).unwrap() by {
                if k == 0 {
                } else if k == 1 {
                } else {
                }
            }
            Some(r)
        },
        _ => None,
    }
}


/// The decimal digits of `n`, without leading zeros.
pub open spec fn decimal(n: nat) -> Seq<u8>
    decreases n,
{
    if n < 10 {
        seq![(48 + n) as u8]
    } else {
        decimal(n / 10).push((48 + n % 10) as u8)
    }
}

/// Corner text `v/t/n` with an empty texture index and 1-based indices.
pub open spec fn corner_text(vertex: u32, normal: u32) -> Seq<u8> {
    decimal((vertex + 1) as nat) + seq![INDEX_SEPARATOR] + (Seq::<u8>::empty() + seq![INDEX_SEPARATOR] + decimal(
        (normal + 1) as nat,
    ))
}

/// The face record that writes `f`.
pub open spec fn face_line(f: FaceRecord) -> Seq<u8> {
    seq![102u8] + seq![FIELD_SEPARATOR] + (corner_text(f.vertices@[0], f.normals@[0]) + seq![
        FIELD_SEPARATOR,
    ] + (corner_text(f.vertices@[1], f.normals@[1]) + seq![FIELD_SEPARATOR] + corner_text(
        f.vertices@[2],
        f.normals@[2],
    )))
}

/// Every index of `f` can be written 1-based in a `u32`.
pub open spec fn face_writable(f: FaceRecord) -> bool {
    forall|c: int| 0 <= c < 3 ==> f.vertices@[c] < u32::MAX && f.normals@[c] < u32::MAX
}

fn push_decimal(out: &mut Vec<u8>, n: u64)
    ensures
        final(out)@ == old(out)@ + decimal(n as nat),
    decreases n,
{
    if n >= 10 {
        push_decimal(out, n / 10);
    }
    out.push((48 + n % 10) as u8);
    proof {
        if n >= 10 {
            assert(final(out)@ =~= old(out)@ + decimal(n as nat));
        } else {
            assert(final(out)@ =~= old(out)@ + decimal(n as nat));
        }
    }
}

fn push_corner(out: &mut Vec<u8>, vertex: u32, normal: u32)
    ensures
        final(out)@ == old(out)@ + corner_text(vertex, normal),
{
    push_decimal(out, vertex as u64 + 1);
    out.push(INDEX_SEPARATOR);
    out.push(INDEX_SEPARATOR);
    push_decimal(out, normal as u64 + 1);
    assert(final(out)@ =~= old(out)@ + corner_text(vertex, normal));
}

/// Writes a face record with 1-based indices, `f v//n v//n v//n`.
pub fn format_face(f: &FaceRecord) -> (r: Vec<u8>)
    ensures
        r@ == face_line(*f),
{
    let mut out: Vec<u8> = Vec::new();
    out.push(102u8);
    out.push(FIELD_SEPARATOR);
    push_corner(&mut out, f.vertices[0], f.normals[0]);
    out.push(FIELD_SEPARATOR);
    push_corner(&mut out, f.vertices[1], f.normals[1]);
    out.push(FIELD_SEPARATOR);
    push_corner(&mut out, f.vertices[2], f.normals[2]);
    assert(out@ =~= face_line(*f));
    out
}

/// `s` holds no `b` from `from` up to `to`, and `to` is its end or a `b`.
proof fn lemma_next_sep_at(s: Seq<u8>, from: int, to: int, b: u8)
    requires
        0 <= from <= to <= s.len(),
        forall|i: int| from <= i < to ==> s[i] != b,
        to == s.len() || s[to] == b,
    ensures
        next_sep(s, from, b) == to,
    decreases to - from,
{
    if from < to {
        lemma_next_sep_at(s, from + 1, to, b);
    }
}

/// Searching past a prefix `p` is searching the rest, shifted.
proof fn lemma_next_sep_shift(p: Seq<u8>, y: Seq<u8>, from: int, b: u8)
    requires
        0 <= from,
    ensures
        next_sep(p + y, from + p.len(), b) == next_sep(y, from, b) + p.len(),
    decreases y.len() - from,
{
    if from < y.len() {
        assert((p + y)[from + p.len()] == y[from]);
        if y[from] != b {
            lemma_next_sep_shift(p, y, from + 1, b);
        }
    }
}

proof fn lemma_field_start_shift(x: Seq<u8>, y: Seq<u8>, b: u8, k: nat)
    requires
        forall|i: int| 0 <= i < x.len() ==> x[i] != b,
    ensures
        field_start(x + seq![b] + y, b, k + 1) == field_start(y, b, k) + x.len() + 1,
    decreases k,
{
    let p = x + seq![b];
    let s = p + y;
    lemma_prefix_free(x, y, b);
    assert(s == x + seq![b] + y);
    if k == 0 {
        lemma_next_sep_at(s, 0, x.len() as int, b);
        assert(field_start(s, b, 0) == 0);
        assert(field_start(s, b, 1) == next_sep(s, field_start(s, b, 0), b) + 1);
    } else {
        lemma_field_start_shift(x, y, b, (k - 1) as nat);
        lemma_field_start_nonneg(y, b, (k - 1) as nat);
        let st = field_start(y, b, (k - 1) as nat);
        lemma_next_sep_shift(p, y, st, b);
        assert(field_start(s, b, k) == st + p.len());
        assert(field_start(s, b, k + 1) == next_sep(s, field_start(s, b, k), b) + 1);
        assert(field_start(y, b, k) == next_sep(y, st, b) + 1);
    }
}

proof fn lemma_field_start_nonneg(s: Seq<u8>, b: u8, k: nat)
    ensures
        field_start(s, b, k) >= 0,
    decreases k,
{
    if k > 0 {
        lemma_field_start_nonneg(s, b, (k - 1) as nat);
        lemma_next_sep_ge(s, field_start(s, b, (k - 1) as nat), b);
    }
}

proof fn lemma_next_sep_ge(s: Seq<u8>, from: int, b: u8)
    ensures
        next_sep(s, from, b) >= from || next_sep(s, from, b) == s.len(),
    decreases s.len() - from,
{
    if from < s.len() && s[from] != b {
        lemma_next_sep_ge(s, from + 1, b);
    }
}

proof fn lemma_prefix_free(x: Seq<u8>, y: Seq<u8>, b: u8)
    requires
        forall|i: int| 0 <= i < x.len() ==> x[i] != b,
    ensures
        forall|i: int| 0 <= i < x.len() ==> (x + seq![b] + y)[i] != b,
        (x + seq![b] + y)[x.len() as int] == b,
{
    let s = x + seq![b] + y;
    assert forall|i: int| 0 <= i < x.len() implies s[i] != b by {
        assert(s[i] == x[i]);
    }
    assert(s[x.len() as int] == (x + seq![b])[x.len() as int]);
}

/// Splitting `x`, a separator and `y`: the first field is `x`, and the later
/// ones are the fields of `y`.
proof fn lemma_field_cons(x: Seq<u8>, y: Seq<u8>, b: u8, k: nat)
    requires
        forall|i: int| 0 <= i < x.len() ==> x[i] != b,
    ensures
        field(x + seq![b] + y, b, 0) == Some(x),
        field(x + seq![b] + y, b, k + 1) == field(y, b, k),
{
    let p = x + seq![b];
    let s = p + y;
    lemma_prefix_free(x, y, b);
    lemma_next_sep_at(s, 0, x.len() as int, b);
    assert(s.subrange(0, x.len() as int) =~= x);
    lemma_field_start_shift(x, y, b, k);
    lemma_field_start_nonneg(y, b, k);
    let st = field_start(y, b, k);
    if st <= y.len() {
        lemma_next_sep_shift(p, y, st, b);
        lemma_next_sep_bounds(y, st, b);
        assert(s.subrange(st + p.len(), next_sep(y, st, b) + p.len()) =~= y.subrange(
            st,
            next_sep(y, st, b),
        ));
    }
}

/// Text without `b` is a single field.
proof fn lemma_field_single(x: Seq<u8>, b: u8)
    requires
        forall|i: int| 0 <= i < x.len() ==> x[i] != b,
    ensures
        field(x, b, 0) == Some(x),
{
    lemma_next_sep_at(x, 0, x.len() as int, b);
    assert(x.subrange(0, x.len() as int) =~= x);
}

/// The digits of `n` read back as `n`.
proof fn lemma_decimal(n: nat)
    ensures
        decimal(n).len() > 0,
        all_digits(decimal(n)),
        digits_value(decimal(n)) == n,
    decreases n,
{
    if n >= 10 {
        lemma_decimal(n / 10);
        vstd::arithmetic::div_mod::lemma_fundamental_div_mod(n as int, 10);
        let d = decimal(n);
        assert(d.last() == (48 + n % 10) as u8);
        assert(digits_value(d) == digits_value(d.drop_last()) * 10 + (d.last() - 48) as nat);
        assert(d.drop_last() =~= decimal(n / 10));
        assert forall|i: int| 0 <= i < d.len() implies 48 <= #[trigger] d[i] <= 57 by {
            if i < d.len() - 1 {
                assert(d[i] == decimal(n / 10)[i]);
            }
        }
    } else {
        let d = decimal(n);
        assert(d.drop_last() =~= Seq::<u8>::empty());
        assert(d.last() == (48 + n) as u8);
        assert(digits_value(d) == digits_value(d.drop_last()) * 10 + (d.last() - 48) as nat);
    }
}

proof fn lemma_decimal_parses(n: nat, b: u8)
    requires
        n <= u32::MAX,
        b < 48,
    ensures
        field(decimal(n), b, 0) == Some(decimal(n)),
        parse_u32_spec(decimal(n)) == Some(n as u32),
        forall|i: int| 0 <= i < decimal(n).len() ==> decimal(n)[i] != b,
{
    lemma_decimal(n);
    assert forall|i: int| 0 <= i < decimal(n).len() implies decimal(n)[i] != b by {
        assert(48 <= decimal(n)[i]);
    }
    lemma_field_single(decimal(n), b);
}

proof fn lemma_corner_round_trip(vertex: u32, normal: u32)
    requires
        vertex < u32::MAX,
        normal < u32::MAX,
    ensures
        parse_field(corner_text(vertex, normal), INDEX_SEPARATOR, 0) == Some((vertex + 1) as u32),
        parse_field(corner_text(vertex, normal), INDEX_SEPARATOR, 2) == Some((normal + 1) as u32),
        forall|i: int|
            0 <= i < corner_text(vertex, normal).len() ==> corner_text(vertex, normal)[i]
                != FIELD_SEPARATOR,
{
    let dv = decimal((vertex + 1) as nat);
    let dn = decimal((normal + 1) as nat);
    let e = Seq::<u8>::empty();
    lemma_decimal_parses((vertex + 1) as nat, INDEX_SEPARATOR);
    lemma_decimal_parses((normal + 1) as nat, INDEX_SEPARATOR);
    lemma_decimal_parses((vertex + 1) as nat, FIELD_SEPARATOR);
    lemma_decimal_parses((normal + 1) as nat, FIELD_SEPARATOR);
    let rest = e + seq![INDEX_SEPARATOR] + dn;
    lemma_field_cons(dv, rest, INDEX_SEPARATOR, 1);
    lemma_field_cons(e, dn, INDEX_SEPARATOR, 0);
    let t = corner_text(vertex, normal);
    assert forall|i: int| 0 <= i < t.len() implies t[i] != FIELD_SEPARATOR by {
        if i < dv.len() {
            assert(t[i] == dv[i]);
        } else if i < dv.len() + 2 {
        } else {
            assert(t[i] == dn[i - dv.len() - 2]);
        }
    }
}

/// Writing a face record and reading it back gives the same triangle:
/// the line is a face record, and each corner reads as the indices written.
pub proof fn lemma_face_round_trip(f: FaceRecord)
    requires
        face_writable(f),
    ensures
        record_kind_spec(face_line(f)) == RecordKind::Face,
        forall|c: int|
            0 <= c < 3 ==> corner_spec(face_line(f), c as nat) == Some(
                (f.vertices@[c], f.normals@[c]),
            ),
{
    let t0 = corner_text(f.vertices@[0], f.normals@[0]);
    let t1 = corner_text(f.vertices@[1], f.normals@[1]);
    let t2 = corner_text(f.vertices@[2], f.normals@[2]);
    assert(f.vertices@[0] < u32::MAX && f.normals@[0] < u32::MAX);
    assert(f.vertices@[1] < u32::MAX && f.normals@[1] < u32::MAX);
    assert(f.vertices@[2] < u32::MAX && f.normals@[2] < u32::MAX);
    lemma_corner_round_trip(f.vertices@[0], f.normals@[0]);
    lemma_corner_round_trip(f.vertices@[1], f.normals@[1]);
    lemma_corner_round_trip(f.vertices@[2], f.normals@[2]);
    let tail1 = t1 + seq![FIELD_SEPARATOR] + t2;
    let tail0 = t0 + seq![FIELD_SEPARATOR] + tail1;
    let line = face_line(f);
    let head = seq![102u8];
    assert(forall|i: int| 0 <= i < head.len() ==> head[i] != FIELD_SEPARATOR);
    lemma_field_cons(head, tail0, FIELD_SEPARATOR, 0);
    lemma_field_cons(head, tail0, FIELD_SEPARATOR, 1);
    lemma_field_cons(head, tail0, FIELD_SEPARATOR, 2);
    lemma_field_cons(t0, tail1, FIELD_SEPARATOR, 0);
    lemma_field_cons(t0, tail1, FIELD_SEPARATOR, 1);
    lemma_field_cons(t1, t2, FIELD_SEPARATOR, 0);
    lemma_field_single(t2, FIELD_SEPARATOR);
    assert(field(line, FIELD_SEPARATOR, 1) == Some(t0));
    assert(field(line, FIELD_SEPARATOR, 2) == Some(t1));
    assert(field(line, FIELD_SEPARATOR, 3) == Some(t2));
    assert(line[0] == 102u8);
    assert(seq![118u8][0] == 118u8);
    assert(head != seq![118u8, 110u8]);
}

} // verus!
