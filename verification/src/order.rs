//! Lexicographic order of byte strings, and the stable order of rows that it induces.

use vstd::prelude::*;
use vstd::string::*;
use vstd::utf8::*;

verus! {

/// How one byte string stands to another.
#[derive(Debug, Clone, Copy, PartialEq, Eq, Structural)]
pub enum Relation {
    Less,
    Equal,
    Greater,
}

/// `a` and `b` agree before position `i`, and at `i` either `a` has ended or holds the smaller
/// byte.
pub open spec fn falls_behind_at(a: Seq<u8>, b: Seq<u8>, i: int) -> bool {
    &&& 0 <= i <= a.len()
    &&& i < b.len()
    &&& a.subrange(0, i) == b.subrange(0, i)
    &&& i < a.len() ==> a[i] < b[i]
}

/// Lexicographic order: `a` comes strictly before `b`.
pub open spec fn bytes_less(a: Seq<u8>, b: Seq<u8>) -> bool {
    exists|i: int| #[trigger] falls_behind_at(a, b, i)
}

/// No byte string comes before itself.
pub proof fn bytes_less_irreflexive(a: Seq<u8>)
    ensures
        !bytes_less(a, a),
{
}

/// The lexicographic order is transitive.
pub proof fn bytes_less_transitive(a: Seq<u8>, b: Seq<u8>, c: Seq<u8>)
    requires
        bytes_less(a, b),
        bytes_less(b, c),
    ensures
        bytes_less(a, c),
{
    let i = choose|i: int| #[trigger] falls_behind_at(a, b, i);
    let j = choose|j: int| #[trigger] falls_behind_at(b, c, j);
    let k = if i <= j {
        i
    } else {
        j
    };
    assert(a.subrange(0, k) =~= a.subrange(0, i).subrange(0, k));
    assert(b.subrange(0, k) =~= b.subrange(0, i).subrange(0, k));
    assert(b.subrange(0, k) =~= b.subrange(0, j).subrange(0, k));
    assert(c.subrange(0, k) =~= c.subrange(0, j).subrange(0, k));
    if i < j {
        assert(b.subrange(0, j)[i] == c.subrange(0, j)[i]);
    }
    if j < i {
        assert(a.subrange(0, i)[j] == b.subrange(0, i)[j]);
    }
    assert(falls_behind_at(a, c, k));
}

/// Two byte strings never come strictly before each other.
pub proof fn bytes_less_asymmetric(a: Seq<u8>, b: Seq<u8>)
    requires
        bytes_less(a, b),
    ensures
        !bytes_less(b, a),
{
    if bytes_less(b, a) {
        bytes_less_transitive(a, b, a);
        bytes_less_irreflexive(a);
    }
}

/// Of two byte strings, one comes first or they are the same.
pub proof fn bytes_less_total(a: Seq<u8>, b: Seq<u8>)
    ensures
        bytes_less(a, b) || bytes_less(b, a) || a == b,
{
    assert(a.subrange(0, 0) =~= b.subrange(0, 0));
    agree_or_differ(a, b, 0);
}

proof fn agree_or_differ(a: Seq<u8>, b: Seq<u8>, i: int)
    requires
        0 <= i <= a.len(),
        i <= b.len(),
        a.subrange(0, i) == b.subrange(0, i),
    ensures
        bytes_less(a, b) || bytes_less(b, a) || a == b,
    decreases a.len() - i,
{
    if i < a.len() && i < b.len() {
        if a[i] < b[i] {
            assert(falls_behind_at(a, b, i));
        } else if b[i] < a[i] {
            assert(falls_behind_at(b, a, i));
        } else {
            assert(a.subrange(0, i + 1) =~= a.subrange(0, i).push(a[i]));
            assert(b.subrange(0, i + 1) =~= b.subrange(0, i).push(b[i]));
            agree_or_differ(a, b, i + 1);
        }
    } else if i < b.len() {
        assert(falls_behind_at(a, b, i));
    } else if i < a.len() {
        assert(falls_behind_at(b, a, i));
    } else {
        assert(a =~= a.subrange(0, i));
        assert(b =~= b.subrange(0, i));
    }
}

/// Compares two byte strings lexicographically.
pub fn compare_bytes(a: &[u8], b: &[u8]) -> (r: Relation)
    ensures
        r == Relation::Less <==> bytes_less(a@, b@),
        r == Relation::Equal <==> a@ == b@,
        r == Relation::Greater <==> bytes_less(b@, a@),
{
    let mut i: usize = 0;
    proof {
        bytes_less_irreflexive(a@);
        if bytes_less(a@, b@) {
            bytes_less_asymmetric(a@, b@);
        }
        if bytes_less(b@, a@) {
            bytes_less_asymmetric(b@, a@);
        }
    }
    while i < a.len() && i < b.len()
        invariant
            i <= a@.len(),
            i <= b@.len(),
            a@.subrange(0, i as int) == b@.subrange(0, i as int),
            a@ == b@ ==> !bytes_less(a@, b@),
            bytes_less(a@, b@) ==> !bytes_less(b@, a@),
            bytes_less(b@, a@) ==> !bytes_less(a@, b@),
        decreases a@.len() - i,
    {
        let x: u8 = a[i];
        let y: u8 = b[i];
        if x < y {
            assert(falls_behind_at(a@, b@, i as int));
            return Relation::Less;
        }
        if y < x {
            assert(falls_behind_at(b@, a@, i as int));
            return Relation::Greater;
        }
        assert(a@.subrange(0, i + 1) =~= a@.subrange(0, i as int).push(x));
        assert(b@.subrange(0, i + 1) =~= b@.subrange(0, i as int).push(y));
        i += 1;
    }
    if i < b.len() {
        assert(falls_behind_at(a@, b@, i as int));
        Relation::Less
    } else if i < a.len() {
        assert(falls_behind_at(b@, a@, i as int));
        Relation::Greater
    } else {
        assert(a@ =~= a@.subrange(0, i as int));
        assert(b@ =~= b@.subrange(0, i as int));
        Relation::Equal
    }
}

/// Whether a text comes strictly before another, by the bytes of their UTF-8 encodings.
pub open spec fn text_less(a: Seq<char>, b: Seq<char>) -> bool {
    bytes_less(encode_utf8(a), encode_utf8(b))
}

/// Texts with the same encoding are the same.
pub proof fn same_encoding(a: Seq<char>, b: Seq<char>)
    requires
        encode_utf8(a) == encode_utf8(b),
    ensures
        a == b,
{
    encode_utf8_decode_utf8(a);
    encode_utf8_decode_utf8(b);
}

/// Compares two texts by their bytes.
pub fn compare_text(a: &str, b: &str) -> (r: Relation)
    ensures
        r == Relation::Less <==> text_less(a@, b@),
        r == Relation::Equal <==> a@ == b@,
        r == Relation::Greater <==> text_less(b@, a@),
{
    proof {
        if encode_utf8(a@) == encode_utf8(b@) {
            same_encoding(a@, b@);
        }
    }
    compare_bytes(a.as_bytes(), b.as_bytes())
}

/// Whether row `x` is placed before row `y`: by the bytes of the rows, ascending or descending,
/// and by position where the bytes are equal.
pub open spec fn placed_before(rows: Seq<Seq<u8>>, desc: bool, x: int, y: int) -> bool {
    ||| if desc {
        bytes_less(rows[y], rows[x])
    } else {
        bytes_less(rows[x], rows[y])
    }
    ||| rows[x] == rows[y] && x < y
}

/// Row placement is transitive.
pub proof fn placed_before_transitive(rows: Seq<Seq<u8>>, desc: bool, x: int, y: int, z: int)
    requires
        placed_before(rows, desc, x, y),
        placed_before(rows, desc, y, z),
    ensures
        placed_before(rows, desc, x, z),
{
    if desc {
        if bytes_less(rows[y], rows[x]) && bytes_less(rows[z], rows[y]) {
            bytes_less_transitive(rows[z], rows[y], rows[x]);
        }
    } else {
        if bytes_less(rows[x], rows[y]) && bytes_less(rows[y], rows[z]) {
            bytes_less_transitive(rows[x], rows[y], rows[z]);
        }
    }
}

/// `order` lists the positions `lo..hi`, each exactly once, in the order of placement.
pub open spec fn is_row_order(
    rows: Seq<Seq<u8>>,
    desc: bool,
    lo: int,
    hi: int,
    order: Seq<usize>,
) -> bool {
    &&& order.len() == hi - lo
    &&& forall|i: int| 0 <= i < order.len() ==> lo <= #[trigger] order[i] < hi
    &&& forall|k: usize| lo <= k < hi ==> #[trigger] order.contains(k)
    &&& forall|i: int, j: int|
        0 <= i < j < order.len() ==> placed_before(
            rows,
            desc,
            #[trigger] order[i] as int,
            #[trigger] order[j] as int,
        )
}

/// The bytes of each row.
pub open spec fn row_bytes(rows: Seq<Vec<u8>>) -> Seq<Seq<u8>> {
    rows.map_values(|r: Vec<u8>| r@)
}

proof fn lemma_push_keeps(s: Seq<usize>, v: usize)
    ensures
        s.push(v).contains(v),
        forall|x: usize| #[trigger] s.contains(x) ==> s.push(v).contains(x),
{
    assert(s.push(v)[s.len() as int] == v);
    assert forall|x: usize| #[trigger] s.contains(x) implies s.push(v).contains(x) by {
        let i = choose|i: int| 0 <= i < s.len() && s[i] == x;
        assert(s.push(v)[i] == x);
    }
}

/// Merges the orders of two adjoining ranges into the order of their union.
fn merge_orders(
    rows: &Vec<Vec<u8>>,
    desc: bool,
    lo: usize,
    mid: usize,
    hi: usize,
    left: &Vec<usize>,
    right: &Vec<usize>,
) -> (out: Vec<usize>)
    requires
        lo <= mid <= hi <= rows@.len(),
        is_row_order(row_bytes(rows@), desc, lo as int, mid as int, left@),
        is_row_order(row_bytes(rows@), desc, mid as int, hi as int, right@),
    ensures
        is_row_order(row_bytes(rows@), desc, lo as int, hi as int, out@),
{
    let ghost rb = row_bytes(rows@);
    let mut out: Vec<usize> = Vec::new();
    let mut i: usize = 0;
    let mut j: usize = 0;
    while i < left.len() || j < right.len()
        invariant
            rb == row_bytes(rows@),
            lo <= mid <= hi <= rows@.len(),
            is_row_order(rb, desc, lo as int, mid as int, left@),
            is_row_order(rb, desc, mid as int, hi as int, right@),
            i <= left@.len(),
            j <= right@.len(),
            out@.len() == i + j,
            forall|k: int| 0 <= k < out@.len() ==> lo <= #[trigger] out@[k] < hi,
            forall|k: int| 0 <= k < i ==> out@.contains(#[trigger] left@[k]),
            forall|k: int| 0 <= k < j ==> out@.contains(#[trigger] right@[k]),
            forall|k: int, l: int|
                0 <= k < l < out@.len() ==> placed_before(
                    rb,
                    desc,
                    #[trigger] out@[k] as int,
                    #[trigger] out@[l] as int,
                ),
            forall|k: int, l: int|
                0 <= k < out@.len() && i <= l < left@.len() ==> placed_before(
                    rb,
                    desc,
                    #[trigger] out@[k] as int,
                    #[trigger] left@[l] as int,
                ),
            forall|k: int, l: int|
                0 <= k < out@.len() && j <= l < right@.len() ==> placed_before(
                    rb,
                    desc,
                    #[trigger] out@[k] as int,
                    #[trigger] right@[l] as int,
                ),
        decreases left@.len() + right@.len() - i - j,
    {
        let take_left: bool = if i == left.len() {
            false
        } else if j == right.len() {
            true
        } else {
            assert(rb[left@[i as int] as int] == rows@[left@[i as int] as int]@);
            assert(rb[right@[j as int] as int] == rows@[right@[j as int] as int]@);
            match compare_bytes(rows[left[i]].as_slice(), rows[right[j]].as_slice()) {
                Relation::Less => !desc,
                Relation::Equal => true,
                Relation::Greater => desc,
            }
        };
        let ghost before = out@;
        if take_left {
            let v: usize = left[i];
            proof {
                assert forall|l: int| j <= l < right@.len() implies placed_before(
                    rb,
                    desc,
                    v as int,
                    #[trigger] right@[l] as int,
                ) by {
                    assert(placed_before(rb, desc, v as int, right@[j as int] as int));
                    if l > j {
                        placed_before_transitive(
                            rb,
                            desc,
                            v as int,
                            right@[j as int] as int,
                            right@[l] as int,
                        );
                    }
                }
                lemma_push_keeps(before, v);
            }
            out.push(v);
            i += 1;
        } else {
            let v: usize = right[j];
            proof {
                assert forall|l: int| i <= l < left@.len() implies placed_before(
                    rb,
                    desc,
                    v as int,
                    #[trigger] left@[l] as int,
                ) by {
                    assert(placed_before(rb, desc, v as int, left@[i as int] as int));
                    if l > i {
                        placed_before_transitive(
                            rb,
                            desc,
                            v as int,
                            left@[i as int] as int,
                            left@[l] as int,
                        );
                    }
                }
                lemma_push_keeps(before, v);
            }
            out.push(v);
            j += 1;
        }
    }
    assert forall|k: usize| lo <= k < hi implies #[trigger] out@.contains(k) by {
        if k < mid {
            assert(left@.contains(k));
            let p = choose|p: int| 0 <= p < left@.len() && left@[p] == k;
            assert(out@.contains(left@[p]));
        } else {
            assert(right@.contains(k));
            let p = choose|p: int| 0 <= p < right@.len() && right@[p] == k;
            assert(out@.contains(right@[p]));
        }
    }
    out
}

/// The order of the rows at the positions `lo..hi`.
fn order_range(rows: &Vec<Vec<u8>>, desc: bool, lo: usize, hi: usize) -> (r: Vec<usize>)
    requires
        lo <= hi <= rows@.len(),
    ensures
        is_row_order(row_bytes(rows@), desc, lo as int, hi as int, r@),
    decreases hi - lo,
{
    if hi - lo == 0 {
        Vec::new()
    } else if hi - lo == 1 {
        let mut r: Vec<usize> = Vec::new();
        r.push(lo);
        assert(r@[0] == lo);
        r
    } else {
        let mid: usize = lo + (hi - lo) / 2;
        let left: Vec<usize> = order_range(rows, desc, lo, mid);
        let right: Vec<usize> = order_range(rows, desc, mid, hi);
        merge_orders(rows, desc, lo, mid, hi, &left, &right)
    }
}

/// The positions of the rows in ascending (or, with `desc`, descending) order of their bytes.
/// Rows with equal bytes keep their relative positions in both directions.
pub fn row_order(rows: &Vec<Vec<u8>>, desc: bool) -> (r: Vec<usize>)
    ensures
        is_row_order(row_bytes(rows@), desc, 0, rows@.len() as int, r@),
{
    order_range(rows, desc, 0, rows.len())
}

/// There is only one row order: placement decides every position.
pub proof fn row_order_unique(rows: Seq<Seq<u8>>, desc: bool, a: Seq<usize>, b: Seq<usize>)
    requires
        is_row_order(rows, desc, 0, rows.len() as int, a),
        is_row_order(rows, desc, 0, rows.len() as int, b),
    ensures
        a == b,
{
    assert forall|i: int| 0 <= i < a.len() implies a[i] == b[i] by {
        lemma_row_order_agrees(rows, desc, a, b, i);
    }
    assert(a =~= b);
}

proof fn lemma_placed_before_irreflexive(rows: Seq<Seq<u8>>, desc: bool, x: int)
    ensures
        !placed_before(rows, desc, x, x),
{
    bytes_less_irreflexive(rows[x]);
}

proof fn lemma_row_order_agrees(
    rows: Seq<Seq<u8>>,
    desc: bool,
    a: Seq<usize>,
    b: Seq<usize>,
    i: int,
)
    requires
        is_row_order(rows, desc, 0, rows.len() as int, a),
        is_row_order(rows, desc, 0, rows.len() as int, b),
        0 <= i < a.len(),
    ensures
        a[i] == b[i],
    decreases i,
{
    assert forall|k: int| 0 <= k < i implies a[k] == b[k] by {
        lemma_row_order_agrees(rows, desc, a, b, k);
    }
    if a[i] != b[i] {
        // Each of the two values stands further back in the other order.
        assert(b.contains(a[i]));
        let p = choose|p: int| 0 <= p < b.len() && b[p] == a[i];
        assert(a.contains(b[i]));
        let q = choose|q: int| 0 <= q < a.len() && a[q] == b[i];
        lemma_placed_before_irreflexive(rows, desc, a[i] as int);
        lemma_placed_before_irreflexive(rows, desc, b[i] as int);
        if p < i {
            assert(a[p] == a[i]);
            assert(placed_before(rows, desc, a[p] as int, a[i] as int));
        }
        if q < i {
            assert(b[q] == b[i]);
            assert(placed_before(rows, desc, b[q] as int, b[i] as int));
        }
        assert(placed_before(rows, desc, b[i] as int, b[p] as int));
        assert(placed_before(rows, desc, a[i] as int, a[q] as int));
        placed_before_transitive(rows, desc, a[i] as int, b[i] as int, a[i] as int);
    }
}

/// Whether `order` lists every position once and no row before a smaller one.
spec fn ascends(rows: Seq<Seq<u8>>, order: Seq<usize>) -> bool {
    &&& order.len() == rows.len()
    &&& order.no_duplicates()
    &&& forall|k: usize| 0 <= k < rows.len() ==> #[trigger] order.contains(k)
    &&& forall|i: int| 0 <= i < order.len() ==> #[trigger] order[i] < rows.len()
    &&& forall|i: int, j: int|
        0 <= i < j < order.len() ==> !bytes_less(
            rows[#[trigger] order[j] as int],
            rows[#[trigger] order[i] as int],
        )
}

/// The positions in the order of an ascending placement ascend, and so do those of a descending
/// one from behind.
proof fn placement_ascends(rows: Seq<Seq<u8>>, desc: bool, order: Seq<usize>)
    requires
        is_row_order(rows, desc, 0, rows.len() as int, order),
    ensures
        ascends(
            rows,
            if desc {
                order.reverse()
            } else {
                order
            },
        ),
{
    let n = order.len() as int;
    let a = if desc {
        order.reverse()
    } else {
        order
    };
    assert forall|k: usize| 0 <= k < rows.len() implies #[trigger] a.contains(k) by {
        assert(order.contains(k));
        let i = choose|i: int| 0 <= i < n && order[i] == k;
        assert(a[if desc {
            n - 1 - i
        } else {
            i
        }] == k);
    }
    assert forall|i: int, j: int| 0 <= i < j < n implies a[i] != a[j] && !bytes_less(
        rows[#[trigger] a[j] as int],
        rows[#[trigger] a[i] as int],
    ) by {
        let x = a[i] as int;
        let y = a[j] as int;
        if desc {
            assert(placed_before(rows, true, order[n - 1 - j] as int, order[n - 1 - i] as int));
        } else {
            assert(placed_before(rows, false, order[i] as int, order[j] as int));
        }
        bytes_less_irreflexive(rows[x]);
        if bytes_less(rows[x], rows[y]) {
            bytes_less_asymmetric(rows[x], rows[y]);
        }
    }
}

/// Of two ascending lists of the same rows, neither has a smaller row at any place.
proof fn ascending_keeps_up(rows: Seq<Seq<u8>>, a: Seq<usize>, b: Seq<usize>, i: int)
    requires
        ascends(rows, a),
        ascends(rows, b),
        0 <= i < rows.len(),
    ensures
        !bytes_less(rows[a[i] as int], rows[b[i] as int]),
{
    if bytes_less(rows[a[i] as int], rows[b[i] as int]) {
        let few = b.take(i);
        let many = a.take(i + 1);
        assert forall|x: usize| #[trigger] many.to_set().contains(x) implies few.to_set().contains(
            x,
        ) by {
            let k = choose|k: int| 0 <= k < many.len() && many[k] == x;
            assert(a[k] == x);
            assert(b.contains(x));
            let p = choose|p: int| 0 <= p < b.len() && b[p] == x;
            if p >= i {
                bytes_less_total(rows[a[k] as int], rows[a[i] as int]);
                if bytes_less(rows[a[k] as int], rows[a[i] as int]) {
                    bytes_less_transitive(
                        rows[a[k] as int],
                        rows[a[i] as int],
                        rows[b[i] as int],
                    );
                }
                if p == i {
                    bytes_less_irreflexive(rows[b[i] as int]);
                }
            }
            assert(few[p] == x);
        }
        many.unique_seq_to_set();
        few.unique_seq_to_set();
        vstd::set_lib::lemma_len_subset(many.to_set(), few.to_set());
    }
}

/// The descending order holds the same rows as the ascending one from behind.
pub proof fn descending_mirrors(rows: Seq<Seq<u8>>, up: Seq<usize>, down: Seq<usize>, i: int)
    requires
        is_row_order(rows, false, 0, rows.len() as int, up),
        is_row_order(rows, true, 0, rows.len() as int, down),
        0 <= i < rows.len(),
    ensures
        rows[down[i] as int] == rows[up[rows.len() - 1 - i] as int],
{
    placement_ascends(rows, false, up);
    placement_ascends(rows, true, down);
    let k = rows.len() - 1 - i;
    ascending_keeps_up(rows, up, down.reverse(), k);
    ascending_keeps_up(rows, down.reverse(), up, k);
    bytes_less_total(rows[up[k] as int], rows[down[i] as int]);
}

/// Where no two rows are equal, the descending order is the ascending one from behind.
pub proof fn descending_is_reversed(rows: Seq<Seq<u8>>, up: Seq<usize>, down: Seq<usize>)
    requires
        is_row_order(rows, false, 0, rows.len() as int, up),
        is_row_order(rows, true, 0, rows.len() as int, down),
        rows.no_duplicates(),
    ensures
        down == up.reverse(),
{
    assert forall|i: int| 0 <= i < down.len() implies down[i] == up.reverse()[i] by {
        descending_mirrors(rows, up, down, i);
    }
    assert(down =~= up.reverse());
}

/// The order of byte strings is that of a dictionary: the first byte in which they differ decides,
/// and a byte string comes before every longer one that it begins.
pub proof fn first_difference_decides(common: Seq<u8>, a: Seq<u8>, b: Seq<u8>)
    ensures
        a.len() > 0 && b.len() > 0 && a[0] != b[0] ==> (bytes_less(common + a, common + b) <==> a[0]
            < b[0]),
        a.len() == 0 && b.len() > 0 ==> bytes_less(common + a, common + b),
        b.len() == 0 ==> !bytes_less(common + a, common + b),
{
    let x = common + a;
    let y = common + b;
    let n = common.len() as int;
    assert(x.subrange(0, n) =~= common);
    assert(y.subrange(0, n) =~= common);
    if b.len() > 0 && (a.len() == 0 || a[0] < b[0]) {
        assert(falls_behind_at(x, y, n));
    }
    if a.len() > 0 && (b.len() == 0 || b[0] < a[0]) {
        assert(falls_behind_at(y, x, n));
        bytes_less_asymmetric(y, x);
    }
    if a.len() == 0 && b.len() == 0 {
        assert(x =~= y);
        bytes_less_irreflexive(x);
    }
}

/// Texts of ASCII characters come in the order of a dictionary too: the first character in which
/// they differ decides, and a text comes before every longer one that it begins.
pub proof fn first_character_decides(common: Seq<char>, a: Seq<char>, b: Seq<char>)
    requires
        is_ascii_chars(common),
        is_ascii_chars(a),
        is_ascii_chars(b),
    ensures
        a.len() > 0 && b.len() > 0 && a[0] != b[0] ==> (text_less(common + a, common + b) <==> a[0]
            < b[0]),
        a.len() == 0 && b.len() > 0 ==> text_less(common + a, common + b),
        b.len() == 0 ==> !text_less(common + a, common + b),
{
    let c = encode_utf8(common);
    is_ascii_chars_encode_utf8(common);
    is_ascii_chars_encode_utf8(a);
    is_ascii_chars_encode_utf8(b);
    is_ascii_chars_encode_utf8(common + a);
    is_ascii_chars_encode_utf8(common + b);
    assert(encode_utf8(common + a) =~= c + encode_utf8(a));
    assert(encode_utf8(common + b) =~= c + encode_utf8(b));
    first_difference_decides(c, encode_utf8(a), encode_utf8(b));
}

} // verus!
