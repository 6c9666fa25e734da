//! Model statistics that need no rendering: number formatting for the report
//! and the watertightness test.
use vstd::prelude::*;
use std::collections::HashMap;
use crate::mesh::Vertex;
use crate::text::{
    decimal_digits, digit_char, extension_of, file_extension, group_thousands, push_all, push_decimal, push_grouped_decimal,
    same_text, string_from_chars, to_uppercase, uppercase_of,
};

verus! {

/// Formats `n` in decimal with a comma between groups of three digits,
/// e.g. `1234567` as `"1,234,567"`.
pub fn fmt_int(n: usize) -> (s: String)
    ensures
        s@ == group_thousands(decimal_digits(n as nat)),
{
    let mut out: Vec<char> = Vec::new();
    push_grouped_decimal(n as u128, &mut out);
    assert(out@ =~= group_thousands(decimal_digits(n as nat)));
    string_from_chars(&out)
}

pub const KIB: u64 = 1_024;

pub const MIB: u64 = 1_048_576;

pub const GIB: u64 = 1_073_741_824;

/// The spacing of the `f64` values around `b`, searched upward from `d`: the
/// smallest power-of-two multiple of `d` below which `b` has at most 53 significant bits.
pub open spec fn f64_grain(b: nat, d: nat) -> nat
    decreases b - d,
{
    if d > 0 && b >= d * 0x20_0000_0000_0000 {
        f64_grain(b, d * 2)
    } else {
        d
    }
}

/// `v / d` rounded to the nearest integer, ties to the even one.
pub open spec fn round_half_even(v: nat, d: nat) -> nat {
    let q = v / d;
    let r = v % d;
    if 2 * r > d || (2 * r == d && q % 2 == 1) {
        (q + 1) as nat
    } else {
        q
    }
}

/// The value of `b as f64`: `b` rounded to 53 significant bits, ties to even.
pub open spec fn f64_value(b: nat) -> nat {
    let d = f64_grain(b, 1);
    round_half_even(b, d) * d
}

/// `m / unit` in hundredths, rounded to nearest with ties to even, which is the
/// number that `{:.2}` shows for the exact quotient.
pub open spec fn hundredths(m: nat, unit: nat) -> nat {
    round_half_even(m * 100, unit)
}

/// A count of hundredths written with two decimals, e.g. `1234` as `"12.34"`.
pub open spec fn two_decimals(h: nat) -> Seq<char> {
    decimal_digits(h / 100) + seq!['.', digit_char((h % 100) / 10), digit_char(h % 10)]
}

/// The size text for a byte count with a unit: `<value> <unit> (<count> bytes)`.
pub open spec fn scaled_size_text(bytes: u64, unit: nat, unit_name: Seq<char>) -> Seq<char> {
    two_decimals(hundredths(f64_value(bytes as nat), unit)) + seq![' '] + unit_name + seq![' ', '(']
        + group_thousands(decimal_digits((bytes as usize) as nat)) + seq![' ', 'b', 'y', 't', 'e', 's', ')']
}

/// What `fmt_bytes` prints: the largest binary unit that fits, with the value as
/// the `f64` quotient shown to two decimals and the exact count with thousands
/// separators; below one KiB just the count.
pub open spec fn bytes_text(bytes: u64) -> Seq<char> {
    if bytes >= GIB {
        scaled_size_text(bytes, GIB as nat, seq!['G', 'B'])
    } else if bytes >= MIB {
        scaled_size_text(bytes, MIB as nat, seq!['M', 'B'])
    } else if bytes >= KIB {
        scaled_size_text(bytes, KIB as nat, seq!['K', 'B'])
    } else {
        decimal_digits(bytes as nat) + seq![' ', 'b', 'y', 't', 'e', 's']
    }
}

fn round_half_even_exec(v: u128, d: u128) -> (q: u128)
    requires
        d > 0,
        v < 0x1_0000_0000_0000_0000_0000_0000,
    ensures
        q == round_half_even(v as nat, d as nat),
{
    let q = v / d;
    let r = v % d;
    if r > d - r || (r == d - r && q % 2 == 1) {
        q + 1
    } else {
        q
    }
}

/// `b as f64`, as an integer.
fn f64_value_exec(b: u64) -> (m: u128)
    ensures
        m == f64_value(b as nat),
        m <= 0x2_0000_0000_0000_0000,
{
    let b = b as u128;
    let mut d: u128 = 1;
    while b >= d * 0x20_0000_0000_0000u128
        invariant
            1 <= d <= 0x1_0000,
            b < 0x1_0000_0000_0000_0000,
            f64_grain(b as nat, d as nat) == f64_grain(b as nat, 1),
        decreases b - d,
    {
        d = d * 2;
    }
    let q = round_half_even_exec(b, d);
    proof {
        let (bi, di, qi) = (b as int, d as int, q as int);
        let q0 = bi / di;
        vstd::arithmetic::div_mod::lemma_fundamental_div_mod(bi, di);
        vstd::arithmetic::div_mod::lemma_mod_pos_bound(bi, di);
        assert(qi <= q0 + 1);
        vstd::arithmetic::mul::lemma_mul_inequality(qi, q0 + 1, di);
        vstd::arithmetic::mul::lemma_mul_is_distributive_add_other_way(di, q0, 1);
        vstd::arithmetic::mul::lemma_mul_is_commutative(di, q0);
        assert(qi * di <= bi + di);
    }
    q * d
}

/// Appends `two_decimals(hundredths(m, unit))`.
fn push_two_decimals(m: u128, unit: u128, out: &mut Vec<char>)
    requires
        m <= 0x2_0000_0000_0000_0000,
        unit > 0,
    ensures
        final(out)@ == old(out)@ + two_decimals(hundredths(m as nat, unit as nat)),
{
    let h = round_half_even_exec(m * 100, unit);
    push_decimal(h / 100, out);
    out.push('.');
    let f = h % 100;
    out.push(crate::text::digit(f / 10));
    out.push(crate::text::digit(h % 10));
}

fn push_scaled_size(bytes: u64, unit: u64, unit_name: Vec<char>, out: &mut Vec<char>)
    requires
        unit > 0,
    ensures
        final(out)@ == old(out)@ + scaled_size_text(bytes, unit as nat, unit_name@),
{
    let m = f64_value_exec(bytes);
    push_two_decimals(m, unit as u128, out);
    out.push(' ');
    push_all(out, &unit_name);
    push_all(out, &vec![' ', '(']);
    push_grouped_decimal((bytes as usize) as u128, out);
    push_all(out, &vec![' ', 'b', 'y', 't', 'e', 's', ')']);
}

/// Formats a file size for the report: `"<n> bytes"` below one KiB, otherwise
/// the size in KB, MB or GB (binary units) with two decimals, followed by the
/// exact count, e.g. `"1.50 KB (1,536 bytes)"`.
pub fn fmt_bytes(bytes: u64) -> (s: String)
    ensures
        s@ == bytes_text(bytes),
{
    let mut out: Vec<char> = Vec::new();
    if bytes >= GIB {
        push_scaled_size(bytes, GIB, vec!['G', 'B'], &mut out);
    } else if bytes >= MIB {
        push_scaled_size(bytes, MIB, vec!['M', 'B'], &mut out);
    } else if bytes >= KIB {
        push_scaled_size(bytes, KIB, vec!['K', 'B'], &mut out);
    } else {
        push_decimal(bytes as u128, &mut out);
        push_all(&mut out, &vec![' ', 'b', 'y', 't', 'e', 's']);
    }
    assert(out@ =~= bytes_text(bytes));
    string_from_chars(&out)
}

/// How often `x` occurs in `s`.
pub open spec fn occurrences<A>(s: Seq<A>, x: A) -> nat
    decreases s.len(),
{
    if s.len() == 0 {
        0
    } else {
        occurrences(s.drop_last(), x) + if s.last() == x { 1nat } else { 0nat }
    }
}

/// The three coordinate bit patterns of a position read as one 96-bit number,
/// most significant first; comparing these numbers compares the arrays
/// lexicographically.
pub open spec fn position_key(p: [u32; 3]) -> int {
    p[0] * 0x1_0000_0000_0000_0000 + p[1] * 0x1_0000_0000 + p[2]
}

/// The undirected edge between two positions, as the ordered pair of their keys.
pub open spec fn edge_key(a: [u32; 3], b: [u32; 3]) -> (int, int) {
    let ka = position_key(a);
    let kb = position_key(b);
    if ka <= kb { (ka, kb) } else { (kb, ka) }
}

/// The corner that follows corner `k` around its triangle (0 -> 1 -> 2 -> 0).
pub open spec fn next_corner(k: int) -> int {
    if k % 3 == 2 { k - 2 } else { k + 1 }
}

/// The number of corners that belong to complete triangles: the vertices form
/// triangles three at a time, and one or two trailing vertices are ignored.
pub open spec fn corner_count(n: nat) -> nat {
    (n / 3 * 3) as nat
}

/// The edges of the unindexed triangle list `vs`: triangle `t` (vertices
/// `3t`, `3t + 1`, `3t + 2`) contributes its edges 0-1, 1-2 and 2-0, in that order.
pub open spec fn mesh_edges(vs: Seq<Vertex>) -> Seq<(int, int)> {
    Seq::new(corner_count(vs.len()), |k: int| edge_key(vs[k].position, vs[next_corner(k)].position))
}

/// Every edge of the mesh is shared by exactly two triangle sides.
pub open spec fn is_watertight(vs: Seq<Vertex>) -> bool {
    let es = mesh_edges(vs);
    forall|k: int| 0 <= k < es.len() ==> occurrences(es, #[trigger] es[k]) == 2
}

proof fn lemma_occurrences_push<A>(s: Seq<A>, y: A, x: A)
    ensures
        occurrences(s.push(y), x) == occurrences(s, x) + if y == x { 1nat } else { 0nat },
{
    assert(s.push(y).drop_last() =~= s);
}

proof fn lemma_occurrences_bound<A>(s: Seq<A>, x: A)
    ensures
        occurrences(s, x) <= s.len(),
    decreases s.len(),
{
    if s.len() > 0 {
        lemma_occurrences_bound(s.drop_last(), x);
    }
}

/// If two equally long sequences agree on which positions hold equal elements,
/// an element and its counterpart occur equally often.
proof fn lemma_occurrences_same_pattern<A, B>(s: Seq<A>, t: Seq<B>, k: int, m: int)
    requires
        s.len() == t.len(),
        0 <= k < s.len(),
        0 <= m <= s.len(),
        forall|i: int, j: int| 0 <= i < s.len() && 0 <= j < s.len() ==> (s[i] == s[j] <==> t[i] == t[j]),
    ensures
        occurrences(s.take(m), s[k]) == occurrences(t.take(m), t[k]),
    decreases m,
{
    if m > 0 {
        lemma_occurrences_same_pattern(s, t, k, m - 1);
        assert(s.take(m).drop_last() =~= s.take(m - 1));
        assert(t.take(m).drop_last() =~= t.take(m - 1));
        assert(s.take(m).last() == s[m - 1]);
        assert(t.take(m).last() == t[m - 1]);
    }
}

/// The 96-bit key of a position as computed at run time.
fn vertex_key(p: &[u32; 3]) -> (k: u128)
    ensures
        k as int == position_key(*p),
        k < 0x1_0000_0000_0000_0000_0000_0000,
{
    (p[0] as u128) * 0x1_0000_0000_0000_0000u128 + (p[1] as u128) * 0x1_0000_0000u128 + (p[2] as u128)
}

/// Positions are keyed by their full bit patterns: distinct positions have
/// distinct keys, so no two corners are ever taken for the same point.
pub proof fn lemma_position_key_injective(a: [u32; 3], b: [u32; 3])
    requires
        position_key(a) == position_key(b),
    ensures
        a == b,
{
    let (a0, a1, a2, b0, b1, b2) = (a[0] as int, a[1] as int, a[2] as int, b[0] as int, b[1] as int, b[2] as int);
    assert(a0 == b0 && a1 == b1 && a2 == b2) by (nonlinear_arith)
        requires
            a0 * 0x1_0000_0000_0000_0000 + a1 * 0x1_0000_0000 + a2 == b0 * 0x1_0000_0000_0000_0000 + b1 * 0x1_0000_0000 + b2,
            0 <= a1 < 0x1_0000_0000, 0 <= a2 < 0x1_0000_0000,
            0 <= b1 < 0x1_0000_0000, 0 <= b2 < 0x1_0000_0000,
            0 <= a0, 0 <= b0;
    assert(a =~= b);
}

/// Two identifiers below 2^64 packed into one number; the packing is injective.
pub open spec fn pack_pair(lo: int, hi: int) -> int {
    lo * 0x1_0000_0000_0000_0000 + hi
}

proof fn lemma_pack_pair_injective(a: int, b: int, c: int, d: int)
    requires
        0 <= a < 0x1_0000_0000_0000_0000, 0 <= b < 0x1_0000_0000_0000_0000,
        0 <= c < 0x1_0000_0000_0000_0000, 0 <= d < 0x1_0000_0000_0000_0000,
        pack_pair(a, b) == pack_pair(c, d),
    ensures
        a == c && b == d,
{
    assert(a == c && b == d) by (nonlinear_arith)
        requires
            a * 0x1_0000_0000_0000_0000 + b == c * 0x1_0000_0000_0000_0000 + d,
            0 <= b < 0x1_0000_0000_0000_0000, 0 <= d < 0x1_0000_0000_0000_0000,
            0 <= a, 0 <= c;
}

/// The identifier pair of an edge, smaller identifier first, packed into one number.
spec fn packed_edge(ids: Map<u128, usize>, a: [u32; 3], b: [u32; 3]) -> int {
    let ia = ids[position_key(a) as u128] as int;
    let ib = ids[position_key(b) as u128] as int;
    if ia <= ib { pack_pair(ia, ib) } else { pack_pair(ib, ia) }
}

spec fn packed_edges(ids: Map<u128, usize>, vs: Seq<Vertex>) -> Seq<u128> {
    Seq::new(corner_count(vs.len()), |k: int| packed_edge(ids, vs[k].position, vs[next_corner(k)].position) as u128)
}

/// Returns true when every mesh edge is shared by exactly two triangles
/// (necessary condition for a closed, manifold mesh). Positions are compared
/// by their bit patterns; an empty mesh counts as watertight.
pub fn check_watertight(vertices: &Vec<Vertex>) -> (watertight: bool)
    ensures
        watertight == is_watertight(vertices@),
{
    broadcast use vstd::std_specs::hash::group_hash_axioms;
    let n: usize = vertices.len() / 3 * 3;
    let ghost vs = vertices@;
    assert(n == corner_count(vs.len()));

    // Give each distinct position a dense identifier.
    let mut ids: HashMap<u128, usize> = HashMap::new();
    let mut next: usize = 0;
    let mut i: usize = 0;
    while i < n
        invariant
            n <= vertices.len(),
            vs == vertices@,
            i <= n,
            next <= i,
            forall|j: int| 0 <= j < i ==> #[trigger] ids@.contains_key(position_key(vs[j].position) as u128),
            forall|k: u128| ids@.contains_key(k) ==> #[trigger] ids@[k] < next,
            forall|k1: u128, k2: u128|
                ids@.contains_key(k1) && ids@.contains_key(k2) && #[trigger] ids@[k1] == #[trigger] ids@[k2] ==> k1 == k2,
        decreases n - i,
    {
        let k = vertex_key(&vertices[i].position);
        if !ids.contains_key(&k) {
            ids.insert(k, next);
            next = next + 1;
        }
        i = i + 1;
    }

    let ghost idm = ids@;
    let ghost es = mesh_edges(vs);
    let ghost pes = packed_edges(idm, vs);
    assert forall|j: int, k: int| 0 <= j < n && 0 <= k < n implies (#[trigger] pes[j] == #[trigger] pes[k] <==> es[j] == es[k]) by {
        let (aj, bj) = (vs[j].position, vs[next_corner(j)].position);
        let (ak, bk) = (vs[k].position, vs[next_corner(k)].position);
        assert(idm.contains_key(position_key(aj) as u128));
        assert(idm.contains_key(position_key(bj) as u128));
        assert(idm.contains_key(position_key(ak) as u128));
        assert(idm.contains_key(position_key(bk) as u128));
        let (iaj, ibj) = (idm[position_key(aj) as u128] as int, idm[position_key(bj) as u128] as int);
        let (iak, ibk) = (idm[position_key(ak) as u128] as int, idm[position_key(bk) as u128] as int);
        assert(0 <= position_key(aj) < 0x1_0000_0000_0000_0000_0000_0000) by (nonlinear_arith)
            requires 0 <= aj[0] < 0x1_0000_0000, 0 <= aj[1] < 0x1_0000_0000, 0 <= aj[2] < 0x1_0000_0000;
        assert(0 <= position_key(bj) < 0x1_0000_0000_0000_0000_0000_0000) by (nonlinear_arith)
            requires 0 <= bj[0] < 0x1_0000_0000, 0 <= bj[1] < 0x1_0000_0000, 0 <= bj[2] < 0x1_0000_0000;
        assert(0 <= position_key(ak) < 0x1_0000_0000_0000_0000_0000_0000) by (nonlinear_arith)
            requires 0 <= ak[0] < 0x1_0000_0000, 0 <= ak[1] < 0x1_0000_0000, 0 <= ak[2] < 0x1_0000_0000;
        assert(0 <= position_key(bk) < 0x1_0000_0000_0000_0000_0000_0000) by (nonlinear_arith)
            requires 0 <= bk[0] < 0x1_0000_0000, 0 <= bk[1] < 0x1_0000_0000, 0 <= bk[2] < 0x1_0000_0000;
        assert(pack_pair(iaj, ibj) < 0x1_0000_0000_0000_0000_0000_0000_0000_0000) by (nonlinear_arith)
            requires 0 <= iaj < 0x1_0000_0000_0000_0000, 0 <= ibj < 0x1_0000_0000_0000_0000;
        assert(pack_pair(ibj, iaj) < 0x1_0000_0000_0000_0000_0000_0000_0000_0000) by (nonlinear_arith)
            requires 0 <= iaj < 0x1_0000_0000_0000_0000, 0 <= ibj < 0x1_0000_0000_0000_0000;
        assert(pack_pair(iak, ibk) < 0x1_0000_0000_0000_0000_0000_0000_0000_0000) by (nonlinear_arith)
            requires 0 <= iak < 0x1_0000_0000_0000_0000, 0 <= ibk < 0x1_0000_0000_0000_0000;
        assert(pack_pair(ibk, iak) < 0x1_0000_0000_0000_0000_0000_0000_0000_0000) by (nonlinear_arith)
            requires 0 <= iak < 0x1_0000_0000_0000_0000, 0 <= ibk < 0x1_0000_0000_0000_0000;
        assert(0 <= pack_pair(iaj, ibj) && 0 <= pack_pair(ibj, iaj)) by (nonlinear_arith)
            requires 0 <= iaj, 0 <= ibj;
        assert(0 <= pack_pair(iak, ibk) && 0 <= pack_pair(ibk, iak)) by (nonlinear_arith)
            requires 0 <= iak, 0 <= ibk;
        if pes[j] == pes[k] {
            let (lj, hj) = if iaj <= ibj { (iaj, ibj) } else { (ibj, iaj) };
            let (lk, hk) = if iak <= ibk { (iak, ibk) } else { (ibk, iak) };
            assert(packed_edge(idm, aj, bj) == pack_pair(lj, hj));
            assert(packed_edge(idm, ak, bk) == pack_pair(lk, hk));
            lemma_pack_pair_injective(lj, hj, lk, hk);
        }
    }
    assert(pes.len() == n);

    // Count how often each edge occurs.
    let mut counts: HashMap<u128, usize> = HashMap::new();
    let mut packed: Vec<u128> = Vec::new();
    let mut k: usize = 0;
    while k < n
        invariant
            n <= vertices.len(),
            n == corner_count(vs.len()),
            vs == vertices@,
            ids@ == idm,
            pes == packed_edges(idm, vs),
            k <= n,
            forall|j: int| 0 <= j < n ==> #[trigger] idm.contains_key(position_key(vs[j].position) as u128),
            packed@ == pes.take(k as int),
            forall|q: u128| #[trigger] counts@.contains_key(q) <==> occurrences(packed@, q) > 0,
            forall|q: u128| #[trigger] counts@.contains_key(q) ==> counts@[q] == occurrences(packed@, q),
        decreases n - k,
    {
        let nk: usize = if k % 3 == 2 { k - 2 } else { k + 1 };
        let ka = vertex_key(&vertices[k].position);
        let kb = vertex_key(&vertices[nk].position);
        assert(idm.contains_key(position_key(vs[k as int].position) as u128));
        assert(idm.contains_key(position_key(vs[nk as int].position) as u128));
        let ia = *ids.get(&ka).unwrap();
        let ib = *ids.get(&kb).unwrap();
        let p: u128 = if ia <= ib {
            (ia as u128) * 0x1_0000_0000_0000_0000u128 + (ib as u128)
        } else {
            (ib as u128) * 0x1_0000_0000_0000_0000u128 + (ia as u128)
        };
        assert(p == pes[k as int]);
        proof {
            lemma_occurrences_bound(packed@, p);
            assert forall|q: u128| true implies occurrences(packed@.push(p), q) == occurrences(packed@, q) + if p == q { 1nat } else { 0nat } by {
                lemma_occurrences_push(packed@, p, q);
            }
        }
        match counts.get(&p) {
            Some(c) => {
                let c = *c;
                counts.insert(p, c + 1);
            },
            None => {
                counts.insert(p, 1);
            },
        }
        packed.push(p);
        k = k + 1;
        assert(packed@ =~= pes.take(k as int));
    }
    assert(packed@ =~= pes);

    // Every edge must have been seen exactly twice.
    let mut k: usize = 0;
    while k < n
        invariant
            n == packed.len(),
            packed@ == pes,
            pes.len() == es.len(),
            es == mesh_edges(vs),
            vs == vertices@,
            forall|q: u128| #[trigger] counts@.contains_key(q) <==> occurrences(packed@, q) > 0,
            forall|q: u128| #[trigger] counts@.contains_key(q) ==> counts@[q] == occurrences(packed@, q),
            forall|i: int, j: int| 0 <= i < n && 0 <= j < n ==> (#[trigger] pes[i] == #[trigger] pes[j] <==> es[i] == es[j]),
            k <= n,
            forall|j: int| 0 <= j < k ==> occurrences(es, #[trigger] es[j]) == 2,
        decreases n - k,
    {
        proof {
            lemma_occurrences_same_pattern(pes, es, k as int, n as int);
            assert(pes.take(n as int) =~= pes);
            assert(es.take(n as int) =~= es);
            assert(packed@.contains(packed@[k as int]));
            lemma_occurrences_positive(packed@, k as int);
        }
        let c = *counts.get(&packed[k]).unwrap();
        if c != 2 {
            assert(occurrences(es, es[k as int]) != 2);
            return false;
        }
        k = k + 1;
    }
    true
}

proof fn lemma_occurrences_positive<A>(s: Seq<A>, k: int)
    requires
        0 <= k < s.len(),
    ensures
        occurrences(s, s[k]) > 0,
    decreases s.len(),
{
    if k < s.len() - 1 {
        lemma_occurrences_positive(s.drop_last(), k);
    }
}

/// The format shown in the model report: `STL` for standard input (`-`),
/// otherwise the file's extension in upper case, `STL` when it has none.
pub open spec fn format_label_of(path: Seq<char>) -> Seq<char> {
    if path == seq!['-'] {
        seq!['S', 'T', 'L']
    } else {
        match extension_of(path) {
            Some(e) => uppercase_of(e),
            None => seq!['S', 'T', 'L'],
        }
    }
}

/// The format label of a model path (see `format_label_of`).
pub fn format_label(path: &str) -> (s: String)
    ensures
        s@ == format_label_of(path@),
{
    proof {
        reveal_strlit("-");
        reveal_strlit("STL");
        assert("-"@ =~= seq!['-']);
        assert("STL"@ =~= seq!['S', 'T', 'L']);
    }
    if same_text(path, "-") {
        "STL".to_owned()
    } else {
        match file_extension(path) {
            Some(e) => to_uppercase(e.as_str()),
            None => "STL".to_owned(),
        }
    }
}

} // verus!
