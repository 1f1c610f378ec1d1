//! File-system paths as the raw bytes the operating system uses (Unix),
//! with the component structure that decides equality, ordering and
//! ancestry.

use vstd::prelude::*;
use vstd::string::StringSliceAdditionalSpecFns;
use vstd::utf8::{decode_utf8, encode_utf8, valid_utf8};

verus! {

/// The byte `/`.
pub const SEP: u8 = 0x2f;

/// The byte `.`.
pub const DOT: u8 = 0x2e;

/// One component of a path, as a mathematical value.
pub enum Part {
    Root,
    Current,
    Parent,
    Normal(Seq<u8>),
}

/// One component of a path.
#[derive(Debug, Clone)]
pub enum Component {
    Root,
    Current,
    Parent,
    Normal(Vec<u8>),
}

impl View for Component {
    type V = Part;

    open spec fn view(&self) -> Part {
        match self {
            Component::Root => Part::Root,
            Component::Current => Part::Current,
            Component::Parent => Part::Parent,
            Component::Normal(name) => Part::Normal(name@),
        }
    }
}

/// The components of a vector of components, as values.
pub open spec fn parts_of(v: Seq<Component>) -> Seq<Part> {
    v.map_values(|c: Component| c@)
}

/// A path: the bytes of an operating-system path.
#[derive(Debug, Clone)]
pub struct FsPath {
    pub bytes: Vec<u8>,
}

impl View for FsPath {
    type V = Seq<u8>;

    open spec fn view(&self) -> Seq<u8> {
        self.bytes@
    }
}

/// The text `String::from_utf8_lossy` makes of these bytes: UTF-8 decoded,
/// each invalid sequence replaced by U+FFFD.
pub uninterp spec fn display_text(bytes: Seq<u8>) -> Seq<char>;

/// Calls `String::from_utf8_lossy`. Claims that the result is the named
/// lossy decoding of the bytes, and that bytes which are valid UTF-8 are
/// decoded unchanged (the function borrows them as they are); how invalid
/// sequences are replaced is left to the name.
#[verifier::external_body]
fn lossy_string(bytes: &Vec<u8>) -> (r: String)
    ensures
        r@ == display_text(bytes@),
        valid_utf8(bytes@) ==> r@ == decode_utf8(bytes@),
{
    String::from_utf8_lossy(bytes).into_owned()
}

/// The path starts at the file-system root.
pub open spec fn has_root(b: Seq<u8>) -> bool {
    b.len() > 0 && b[0] == SEP
}

/// The relative path starts with a `.` component of its own (`.` or `./...`).
pub open spec fn has_current_lead(b: Seq<u8>) -> bool {
    !has_root(b) && b.len() > 0 && b[0] == DOT && (b.len() == 1 || b[1] == SEP)
}

/// How many bytes the leading root or `.` takes.
pub open spec fn lead_len(b: Seq<u8>) -> int {
    if has_root(b) || has_current_lead(b) {
        1
    } else {
        0
    }
}

/// The component the leading bytes stand for.
pub open spec fn lead_parts(b: Seq<u8>) -> Seq<Part> {
    if has_root(b) {
        seq![Part::Root]
    } else if has_current_lead(b) {
        seq![Part::Current]
    } else {
        seq![]
    }
}

/// The component one segment between separators stands for: empty
/// segments and `.` stand for none.
pub open spec fn segment_parts(seg: Seq<u8>) -> Seq<Part> {
    if seg.len() == 0 || seg =~= seq![DOT] {
        seq![]
    } else if seg =~= seq![DOT, DOT] {
        seq![Part::Parent]
    } else {
        seq![Part::Normal(seg)]
    }
}

/// The index of the first separator at or after `from`, or the length.
pub open spec fn sep_index(b: Seq<u8>, from: int) -> int
    decreases b.len() - from,
{
    if from >= b.len() {
        b.len() as int
    } else if b[from] == SEP {
        from
    } else {
        sep_index(b, from + 1)
    }
}

/// The components of the bytes from `start` on.
pub open spec fn body_parts(b: Seq<u8>, start: int) -> Seq<Part>
    decreases b.len() - start,
{
    if start > b.len() || start < 0 {
        seq![]
    } else {
        let j = sep_index(b, start);
        proof {
            lemma_sep_index_bounds(b, start);
        }
        if j >= b.len() {
            segment_parts(b.subrange(start, b.len() as int))
        } else {
            segment_parts(b.subrange(start, j)) + body_parts(b, j + 1)
        }
    }
}

/// The components of a path: a root or leading `.`, then every segment
/// that is not empty and not `.`; `..` is the parent component.
pub open spec fn parts(b: Seq<u8>) -> Seq<Part> {
    lead_parts(b) + body_parts(b, lead_len(b))
}

pub proof fn lemma_sep_index_bounds(b: Seq<u8>, from: int)
    requires
        0 <= from,
    ensures
        from <= sep_index(b, from) || from > b.len(),
        sep_index(b, from) <= b.len(),
        sep_index(b, from) < b.len() ==> b[sep_index(b, from)] == SEP,
        forall|k: int| from <= k < sep_index(b, from) ==> b[k] != SEP,
    decreases b.len() - from,
{
    if from < b.len() && b[from] != SEP {
        lemma_sep_index_bounds(b, from + 1);
    }
}

/// A name a directory listing can give: not empty, without a separator,
/// and neither `.` nor `..`.
pub open spec fn valid_entry_name(n: Seq<u8>) -> bool {
    &&& n.len() > 0
    &&& forall|i: int| 0 <= i < n.len() ==> n[i] != SEP
    &&& !(n =~= seq![DOT])
    &&& !(n =~= seq![DOT, DOT])
}

proof fn lemma_sep_index_append(a: Seq<u8>, t: Seq<u8>, start: int)
    requires
        0 <= start <= a.len(),
    ensures
        sep_index(a + t, start) == if sep_index(a, start) < a.len() {
            sep_index(a, start)
        } else {
            a.len() + sep_index(t, 0)
        },
    decreases a.len() - start,
{
    let b = a + t;
    if start < a.len() {
        assert(b[start] == a[start]);
        if a[start] != SEP {
            lemma_sep_index_append(a, t, start + 1);
        }
    } else {
        lemma_sep_index_shift(a, t, 0);
    }
}

proof fn lemma_sep_index_shift(a: Seq<u8>, t: Seq<u8>, k: int)
    requires
        0 <= k <= t.len(),
    ensures
        sep_index(a + t, a.len() + k) == a.len() + sep_index(t, k),
    decreases t.len() - k,
{
    let b = a + t;
    if k < t.len() {
        assert(b[a.len() + k] == t[k]);
        if t[k] != SEP {
            lemma_sep_index_shift(a, t, k + 1);
        }
    }
}

proof fn lemma_sep_index_none(t: Seq<u8>, k: int)
    requires
        0 <= k <= t.len(),
        forall|i: int| 0 <= i < t.len() ==> t[i] != SEP,
    ensures
        sep_index(t, k) == t.len(),
    decreases t.len() - k,
{
    if k < t.len() {
        lemma_sep_index_none(t, k + 1);
    }
}

/// A separator added at the end stands for no component.
proof fn lemma_body_push_sep(d: Seq<u8>, start: int)
    requires
        0 <= start <= d.len(),
    ensures
        body_parts(d.push(SEP), start) == body_parts(d, start),
    decreases d.len() - start,
{
    let e = d.push(SEP);
    assert(e =~= d + seq![SEP]);
    lemma_sep_index_append(d, seq![SEP], start);
    lemma_sep_index_bounds(d, start);
    let j = sep_index(d, start);
    assert(sep_index(seq![SEP], 0) == 0);
    assert(e.subrange(start, j) =~= d.subrange(start, j));
    if j < d.len() {
        lemma_body_push_sep(d, j + 1);
    } else {
        assert(j == d.len());
        assert(d.subrange(start, d.len() as int) =~= d.subrange(start, j));
        assert(body_parts(e, j + 1) == segment_parts(e.subrange(j + 1, e.len() as int)));
        assert(e.subrange(j + 1, e.len() as int) =~= Seq::<u8>::empty());
        assert(segment_parts(Seq::<u8>::empty()) =~= Seq::<Part>::empty());
        assert(body_parts(e, start) =~= segment_parts(e.subrange(start, j)) + body_parts(e, j + 1));
    }
}

/// A segment without separators appended after a separator is one more
/// segment.
proof fn lemma_body_append(a: Seq<u8>, t: Seq<u8>, start: int)
    requires
        a.len() > 0,
        a.last() == SEP,
        forall|i: int| 0 <= i < t.len() ==> t[i] != SEP,
        0 <= start <= a.len(),
    ensures
        body_parts(a + t, start) == body_parts(a, start) + segment_parts(t),
    decreases a.len() - start,
{
    let b = a + t;
    lemma_sep_index_append(a, t, start);
    lemma_sep_index_bounds(a, start);
    lemma_sep_index_none(t, 0);
    let j = sep_index(a, start);
    if start < a.len() {
        assert(sep_index(a, start) < a.len()) by {
            if sep_index(a, start) >= a.len() {
                assert(a[a.len() - 1] != SEP);
            }
        }
        assert(b.subrange(start, j) =~= a.subrange(start, j));
        lemma_body_append(a, t, j + 1);
        assert(body_parts(b, start) == segment_parts(b.subrange(start, j)) + body_parts(b, j + 1));
        assert(body_parts(a, start) == segment_parts(a.subrange(start, j)) + body_parts(a, j + 1));
        assert(body_parts(b, start) =~= body_parts(a, start) + segment_parts(t));
    } else {
        assert(j == a.len());
        assert(sep_index(b, start) == b.len());
        assert(b.subrange(start, b.len() as int) =~= t);
        assert(a.subrange(start, a.len() as int) =~= Seq::<u8>::empty());
        assert(segment_parts(Seq::<u8>::empty()) =~= Seq::<Part>::empty());
        assert(body_parts(b, start) =~= body_parts(a, start) + segment_parts(t));
    }
}

/// Joining an entry name onto a path adds exactly one component, the name.
pub proof fn lemma_join_name_parts(d: Seq<u8>, n: Seq<u8>)
    requires
        valid_entry_name(n),
    ensures
        parts(join_bytes(d, n)) == parts(d).push(Part::Normal(n)),
{
    lemma_sep_index_none(n, 0);
    assert(!has_root(n)) by {
        assert(n[0] != SEP);
    }
    assert(segment_parts(n) == seq![Part::Normal(n)]);
    if d.len() == 0 {
        assert(join_bytes(d, n) =~= n);
        assert(!has_current_lead(n)) by {
            if n[0] == DOT && n.len() == 1 {
                assert(n =~= seq![DOT]);
            }
        }
        assert(n.subrange(0, n.len() as int) =~= n);
        assert(parts(n) =~= seq![Part::Normal(n)]);
        assert(body_parts(d, 0) =~= Seq::<Part>::empty()) by {
            assert(d.subrange(0, 0) =~= Seq::<u8>::empty());
        }
        assert(parts(d) =~= Seq::<Part>::empty());
    } else {
        let a = if d.last() == SEP {
            d
        } else {
            d.push(SEP)
        };
        assert(join_bytes(d, n) =~= a + n);
        assert(a.last() == SEP);
        // The lead of a path is decided by its first two bytes.
        assert(lead_len(a) == lead_len(d) && lead_parts(a) == lead_parts(d)) by {
            assert(a[0] == d[0]);
            if d.len() >= 2 {
                assert(a[1] == d[1]);
            }
        }
        let b = a + n;
        assert(lead_len(b) == lead_len(a) && lead_parts(b) == lead_parts(a)) by {
            assert(b[0] == a[0]);
            if a.len() >= 2 {
                assert(b[1] == a[1]);
            } else {
                assert(a[0] == SEP);
            }
        }
        lemma_body_append(a, n, lead_len(a));
        if d.last() != SEP {
            lemma_body_push_sep(d, lead_len(d));
        }
        assert(parts(b) =~= parts(d).push(Part::Normal(n)));
    }
}

/// A path starts with itself.
pub proof fn lemma_starts_with_self(p: Seq<u8>)
    ensures
        path_starts_with(p, p),
{
    assert(parts(p).take(parts(p).len() as int) =~= parts(p));
}

/// Below a path stays below it when an entry name is joined on.
pub proof fn lemma_join_name_below(d: Seq<u8>, n: Seq<u8>, base: Seq<u8>)
    requires
        valid_entry_name(n),
        path_starts_with(d, base),
    ensures
        path_starts_with(join_bytes(d, n), base),
{
    lemma_join_name_parts(d, n);
    let pd = parts(d);
    let k = parts(base).len() as int;
    assert(pd.push(Part::Normal(n)).take(k) =~= pd.take(k));
}

/// Finds the next separator.
fn find_sep(b: &Vec<u8>, from: usize) -> (j: usize)
    requires
        from <= b.len(),
    ensures
        j == sep_index(b@, from as int),
{
    let mut j = from;
    while j < b.len() && b[j] != SEP
        invariant
            from <= j <= b.len(),
            sep_index(b@, from as int) == sep_index(b@, j as int),
        decreases b.len() - j,
    {
        j = j + 1;
    }
    j
}

fn copy_range(b: &Vec<u8>, lo: usize, hi: usize) -> (r: Vec<u8>)
    requires
        lo <= hi <= b.len(),
    ensures
        r@ == b@.subrange(lo as int, hi as int),
{
    let mut r: Vec<u8> = Vec::new();
    let mut i = lo;
    while i < hi
        invariant
            lo <= i <= hi <= b.len(),
            r@ == b@.subrange(lo as int, i as int),
        decreases hi - i,
    {
        r.push(b[i]);
        i = i + 1;
        assert(r@ =~= b@.subrange(lo as int, i as int));
    }
    r
}

/// Appends the component that the segment `b[lo..hi]` stands for.
fn push_segment(out: &mut Vec<Component>, b: &Vec<u8>, lo: usize, hi: usize)
    requires
        lo <= hi <= b.len(),
    ensures
        parts_of(final(out)@) == parts_of(old(out)@) + segment_parts(b@.subrange(lo as int, hi as int)),
{
    let ghost seg = b@.subrange(lo as int, hi as int);
    if hi == lo {
        assert(parts_of(out@) =~= parts_of(out@) + segment_parts(seg));
    } else if hi - lo == 1 && b[lo] == DOT {
        assert(seg =~= seq![DOT]);
        assert(parts_of(out@) =~= parts_of(out@) + segment_parts(seg));
    } else if hi - lo == 2 && b[lo] == DOT && b[lo + 1] == DOT {
        assert(seg =~= seq![DOT, DOT]);
        let ghost before = parts_of(out@);
        out.push(Component::Parent);
        assert(parts_of(out@) =~= before + segment_parts(seg));
    } else {
        assert(!(seg =~= seq![DOT])) by {
            if seg =~= seq![DOT] {
                assert(seg.len() == 1);
                assert(seg[0] == b@[lo as int]);
            }
        }
        assert(!(seg =~= seq![DOT, DOT])) by {
            if seg =~= seq![DOT, DOT] {
                assert(seg.len() == 2);
                assert(seg[0] == b@[lo as int]);
                assert(seg[1] == b@[lo + 1]);
            }
        }
        let ghost before = parts_of(out@);
        let name = copy_range(b, lo, hi);
        out.push(Component::Normal(name));
        assert(parts_of(out@) =~= before + segment_parts(seg));
    }
}

/// The outcome of comparing two values.
#[derive(Debug, Clone, Copy)]
pub enum Order {
    Less,
    Equal,
    Greater,
}

/// Byte strings in lexicographic order.
pub open spec fn bytes_order(a: Seq<u8>, b: Seq<u8>) -> Order
    decreases a.len(),
{
    if a.len() == 0 {
        if b.len() == 0 {
            Order::Equal
        } else {
            Order::Less
        }
    } else if b.len() == 0 {
        Order::Greater
    } else if a[0] < b[0] {
        Order::Less
    } else if a[0] > b[0] {
        Order::Greater
    } else {
        bytes_order(a.drop_first(), b.drop_first())
    }
}

/// Rank of a component kind: root before `.` before `..` before names.
pub open spec fn part_rank(p: Part) -> int {
    match p {
        Part::Root => 0,
        Part::Current => 1,
        Part::Parent => 2,
        Part::Normal(_) => 3,
    }
}

/// Components are ordered by kind, and names by their bytes.
pub open spec fn part_order(x: Part, y: Part) -> Order {
    if part_rank(x) < part_rank(y) {
        Order::Less
    } else if part_rank(x) > part_rank(y) {
        Order::Greater
    } else {
        match (x, y) {
            (Part::Normal(a), Part::Normal(b)) => bytes_order(a, b),
            _ => Order::Equal,
        }
    }
}

/// Component sequences in lexicographic order.
pub open spec fn parts_order(a: Seq<Part>, b: Seq<Part>) -> Order
    decreases a.len(),
{
    if a.len() == 0 {
        if b.len() == 0 {
            Order::Equal
        } else {
            Order::Less
        }
    } else if b.len() == 0 {
        Order::Greater
    } else {
        match part_order(a[0], b[0]) {
            Order::Equal => parts_order(a.drop_first(), b.drop_first()),
            other => other,
        }
    }
}

/// Paths are ordered by their components.
pub open spec fn path_order(a: Seq<u8>, b: Seq<u8>) -> Order {
    parts_order(parts(a), parts(b))
}

/// Two paths are the same path when their components are equal.
pub open spec fn same_path(a: Seq<u8>, b: Seq<u8>) -> bool {
    parts(a) == parts(b)
}

/// `base`'s components are a prefix of `p`'s.
pub open spec fn path_starts_with(p: Seq<u8>, base: Seq<u8>) -> bool {
    parts(base).len() <= parts(p).len() && parts(p).take(parts(base).len() as int) == parts(base)
}

pub proof fn lemma_bytes_order_equal(a: Seq<u8>, b: Seq<u8>)
    ensures
        (bytes_order(a, b) == Order::Equal) <==> a == b,
    decreases a.len(),
{
    if a.len() > 0 && b.len() > 0 && a[0] == b[0] {
        lemma_bytes_order_equal(a.drop_first(), b.drop_first());
        if a.drop_first() =~= b.drop_first() {
            assert forall|k: int| 0 <= k < a.len() implies a[k] == b[k] by {
                if k > 0 {
                    assert(a[k] == a.drop_first()[k - 1]);
                    assert(b[k] == b.drop_first()[k - 1]);
                }
            }
            assert(a =~= b);
        }
        if a =~= b {
            assert(a.drop_first() =~= b.drop_first());
        }
        assert((bytes_order(a, b) == Order::Equal) <==> a =~= b);
    } else if a.len() > 0 && b.len() > 0 {
        assert(!(a =~= b));
        assert(bytes_order(a, b) != Order::Equal);
    } else if a.len() == 0 && b.len() == 0 {
        assert(a =~= b);
    } else {
        assert(!(a =~= b));
        assert(bytes_order(a, b) != Order::Equal);
    }
}

pub proof fn lemma_bytes_order_flip(a: Seq<u8>, b: Seq<u8>)
    ensures
        (bytes_order(a, b) == Order::Less) <==> (bytes_order(b, a) == Order::Greater),
    decreases a.len(),
{
    if a.len() > 0 && b.len() > 0 && a[0] == b[0] {
        lemma_bytes_order_flip(a.drop_first(), b.drop_first());
    }
}

pub proof fn lemma_bytes_order_transitive(a: Seq<u8>, b: Seq<u8>, c: Seq<u8>)
    requires
        bytes_order(a, b) == Order::Less,
        bytes_order(b, c) == Order::Less,
    ensures
        bytes_order(a, c) == Order::Less,
    decreases a.len(),
{
    if a.len() > 0 && b.len() > 0 && c.len() > 0 && a[0] == b[0] && b[0] == c[0] {
        lemma_bytes_order_transitive(a.drop_first(), b.drop_first(), c.drop_first());
    }
}

pub proof fn lemma_part_order_laws(x: Part, y: Part)
    ensures
        (part_order(x, y) == Order::Equal) <==> x == y,
        (part_order(x, y) == Order::Less) <==> (part_order(y, x) == Order::Greater),
{
    match (x, y) {
        (Part::Normal(a), Part::Normal(b)) => {
            lemma_bytes_order_equal(a, b);
            lemma_bytes_order_flip(a, b);
        },
        _ => {},
    }
}

pub proof fn lemma_part_order_transitive(x: Part, y: Part, z: Part)
    requires
        part_order(x, y) == Order::Less,
        part_order(y, z) == Order::Less,
    ensures
        part_order(x, z) == Order::Less,
{
    match (x, y, z) {
        (Part::Normal(a), Part::Normal(b), Part::Normal(c)) => {
            lemma_bytes_order_transitive(a, b, c);
        },
        _ => {},
    }
}

/// Component order is an order: it says `Equal` of equal sequences only,
/// and swapping the arguments swaps `Less` and `Greater`.
pub proof fn lemma_parts_order_laws(a: Seq<Part>, b: Seq<Part>)
    ensures
        (parts_order(a, b) == Order::Equal) <==> a == b,
        (parts_order(a, b) == Order::Less) <==> (parts_order(b, a) == Order::Greater),
    decreases a.len(),
{
    if a.len() > 0 && b.len() > 0 {
        lemma_part_order_laws(a[0], b[0]);
        lemma_part_order_laws(b[0], a[0]);
        lemma_parts_order_laws(a.drop_first(), b.drop_first());
        if part_order(a[0], b[0]) == Order::Equal {
            assert(a[0] == b[0]);
            assert(parts_order(a, b) == parts_order(a.drop_first(), b.drop_first()));
            assert(parts_order(b, a) == parts_order(b.drop_first(), a.drop_first()));
            if a.drop_first() =~= b.drop_first() {
                assert forall|k: int| 0 <= k < a.len() implies a[k] == b[k] by {
                    if k > 0 {
                        assert(a[k] == a.drop_first()[k - 1]);
                        assert(b[k] == b.drop_first()[k - 1]);
                    }
                }
                assert(a =~= b);
            }
            if a =~= b {
                assert(a.drop_first() =~= b.drop_first());
            }
        } else {
            assert(a[0] != b[0]);
            assert(!(a =~= b));
            assert(parts_order(a, b) == part_order(a[0], b[0]));
            assert(parts_order(b, a) == part_order(b[0], a[0]));
        }
    } else if a.len() == 0 && b.len() == 0 {
        assert(a =~= b);
    } else {
        assert(!(a =~= b));
    }
}

/// Component order is transitive.
pub proof fn lemma_parts_order_transitive(a: Seq<Part>, b: Seq<Part>, c: Seq<Part>)
    requires
        parts_order(a, b) == Order::Less,
        parts_order(b, c) == Order::Less,
    ensures
        parts_order(a, c) == Order::Less,
    decreases a.len(),
{
    if a.len() > 0 && b.len() > 0 && c.len() > 0 {
        lemma_part_order_laws(a[0], b[0]);
        lemma_part_order_laws(b[0], c[0]);
        lemma_part_order_laws(a[0], c[0]);
        if part_order(a[0], b[0]) == Order::Less && part_order(b[0], c[0]) == Order::Less {
            lemma_part_order_transitive(a[0], b[0], c[0]);
        } else if part_order(a[0], b[0]) == Order::Equal && part_order(b[0], c[0]) == Order::Equal {
            lemma_parts_order_transitive(a.drop_first(), b.drop_first(), c.drop_first());
        }
    }
}

fn compare_bytes(a: &Vec<u8>, b: &Vec<u8>) -> (r: Order)
    ensures
        r == bytes_order(a@, b@),
{
    let mut i: usize = 0;
    assert(a@.skip(0) =~= a@);
    assert(b@.skip(0) =~= b@);
    while i < a.len() && i < b.len() && a[i] == b[i]
        invariant
            i <= a.len(),
            i <= b.len(),
            bytes_order(a@, b@) == bytes_order(a@.skip(i as int), b@.skip(i as int)),
        decreases a.len() - i,
    {
        assert(a@.skip(i as int).drop_first() =~= a@.skip(i + 1));
        assert(b@.skip(i as int).drop_first() =~= b@.skip(i + 1));
        i = i + 1;
    }
    if i == a.len() {
        if i == b.len() {
            Order::Equal
        } else {
            Order::Less
        }
    } else if i == b.len() {
        Order::Greater
    } else if a[i] < b[i] {
        Order::Less
    } else {
        Order::Greater
    }
}

fn compare_component(x: &Component, y: &Component) -> (r: Order)
    ensures
        r == part_order(x@, y@),
{
    match (x, y) {
        (Component::Normal(a), Component::Normal(b)) => compare_bytes(a, b),
        _ => {
            let rx: u8 = match x {
                Component::Root => 0,
                Component::Current => 1,
                Component::Parent => 2,
                Component::Normal(_) => 3,
            };
            let ry: u8 = match y {
                Component::Root => 0,
                Component::Current => 1,
                Component::Parent => 2,
                Component::Normal(_) => 3,
            };
            if rx < ry {
                Order::Less
            } else if rx > ry {
                Order::Greater
            } else {
                Order::Equal
            }
        },
    }
}

fn compare_components(a: &Vec<Component>, b: &Vec<Component>) -> (r: Order)
    ensures
        r == parts_order(parts_of(a@), parts_of(b@)),
{
    let mut i: usize = 0;
    let ghost pa = parts_of(a@);
    let ghost pb = parts_of(b@);
    assert(pa.skip(0) =~= pa);
    assert(pb.skip(0) =~= pb);
    while i < a.len() && i < b.len()
        invariant
            i <= a.len(),
            i <= b.len(),
            pa == parts_of(a@),
            pb == parts_of(b@),
            parts_order(pa, pb) == parts_order(pa.skip(i as int), pb.skip(i as int)),
        decreases a.len() - i,
    {
        let c = compare_component(&a[i], &b[i]);
        assert(pa.skip(i as int)[0] == a@[i as int]@);
        assert(pb.skip(i as int)[0] == b@[i as int]@);
        match c {
            Order::Equal => {},
            _ => {
                return c;
            },
        }
        assert(pa.skip(i as int).drop_first() =~= pa.skip(i + 1));
        assert(pb.skip(i as int).drop_first() =~= pb.skip(i + 1));
        i = i + 1;
    }
    if i == a.len() {
        if i == b.len() {
            Order::Equal
        } else {
            Order::Less
        }
    } else {
        Order::Greater
    }
}

/// Joining: an absolute `b` replaces `a`; otherwise `b` is appended,
/// after a separator unless `a` is empty or already ends in one.
pub open spec fn join_bytes(a: Seq<u8>, b: Seq<u8>) -> Seq<u8> {
    if has_root(b) {
        b
    } else if a.len() > 0 && a.last() != SEP {
        a + seq![SEP] + b
    } else {
        a + b
    }
}

/// The index of the last separator in `b[lo..hi]`, or `lo - 1`.
pub open spec fn last_sep(b: Seq<u8>, lo: int, hi: int) -> int
    decreases hi - lo,
{
    if hi <= lo {
        lo - 1
    } else if b[hi - 1] == SEP {
        hi - 1
    } else {
        last_sep(b, lo, hi - 1)
    }
}

/// `b[lo..hi]` is a segment that stands for no component.
pub open spec fn is_empty_segment(b: Seq<u8>, lo: int, hi: int) -> bool {
    hi == lo || (hi == lo + 1 && b[lo] == DOT)
}

/// The end of `b[lo..hi]` once trailing separators and `.` segments are
/// removed.
pub open spec fn strip_end(b: Seq<u8>, lo: int, hi: int) -> int
    decreases hi - lo,
{
    if hi <= lo {
        lo
    } else {
        let k = last_sep(b, lo, hi);
        proof {
            lemma_last_sep_bounds(b, lo, hi);
        }
        if is_empty_segment(b, k + 1, hi) {
            if k < lo {
                lo
            } else {
                strip_end(b, lo, k)
            }
        } else {
            hi
        }
    }
}

/// The parent: `None` for a path without components or ending at the root;
/// otherwise the bytes before the last component, without the separators
/// and `.` segments that would end them.
pub open spec fn parent_bytes(b: Seq<u8>) -> Option<Seq<u8>> {
    let lo = lead_len(b);
    let h = strip_end(b, lo, b.len() as int);
    if h <= lo {
        if has_current_lead(b) {
            Some(seq![])
        } else {
            None
        }
    } else {
        let k = last_sep(b, lo, h);
        let h2 = if k < lo {
            lo
        } else {
            strip_end(b, lo, k)
        };
        Some(b.take(h2))
    }
}

pub proof fn lemma_last_sep_bounds(b: Seq<u8>, lo: int, hi: int)
    requires
        lo <= hi,
    ensures
        lo - 1 <= last_sep(b, lo, hi) < hi,
        last_sep(b, lo, hi) >= lo ==> b[last_sep(b, lo, hi)] == SEP,
    decreases hi - lo,
{
    if hi > lo && b[hi - 1] != SEP {
        lemma_last_sep_bounds(b, lo, hi - 1);
    }
}

pub proof fn lemma_strip_end_bounds(b: Seq<u8>, lo: int, hi: int)
    requires
        lo <= hi,
    ensures
        lo <= strip_end(b, lo, hi) <= hi,
    decreases hi - lo,
{
    if hi > lo {
        lemma_last_sep_bounds(b, lo, hi);
        let k = last_sep(b, lo, hi);
        if is_empty_segment(b, k + 1, hi) && k >= lo {
            lemma_strip_end_bounds(b, lo, k);
        }
    }
}

/// One past the last separator in `b[lo..hi]`, or `lo` when there is none.
fn last_sep_end(b: &Vec<u8>, lo: usize, hi: usize) -> (r: usize)
    requires
        lo <= hi <= b.len(),
    ensures
        r == last_sep(b@, lo as int, hi as int) + 1,
{
    let mut h = hi;
    while h > lo && b[h - 1] != SEP
        invariant
            lo <= h <= hi <= b.len(),
            last_sep(b@, lo as int, hi as int) == last_sep(b@, lo as int, h as int),
        decreases h,
    {
        h = h - 1;
    }
    if h == lo {
        lo
    } else {
        h
    }
}

fn strip_end_exec(b: &Vec<u8>, lo: usize, hi: usize) -> (r: usize)
    requires
        lo <= hi <= b.len(),
    ensures
        r == strip_end(b@, lo as int, hi as int),
{
    let mut h = hi;
    loop
        invariant
            lo <= h <= hi <= b.len(),
            strip_end(b@, lo as int, hi as int) == strip_end(b@, lo as int, h as int),
        decreases h,
    {
        if h <= lo {
            return lo;
        }
        let k1 = last_sep_end(b, lo, h);
        proof {
            lemma_last_sep_bounds(b@, lo as int, h as int);
        }
        let empty = k1 == h || (h - k1 == 1 && b[k1] == DOT);
        if empty {
            if k1 == lo {
                return lo;
            }
            h = k1 - 1;
        } else {
            return h;
        }
    }
}

impl FsPath {
    /// Whether the path is absolute: on Unix, whether it starts at the root.
    pub fn is_absolute(&self) -> (r: bool)
        ensures
            r == has_root(self@),
    {
        self.bytes.len() > 0 && self.bytes[0] == SEP
    }

    /// This path with `other` joined onto it, as `PathBuf::push` does.
    pub fn join(&self, other: &FsPath) -> (r: FsPath)
        ensures
            r@ == join_bytes(self@, other@),
    {
        if other.is_absolute() {
            return other.duplicate();
        }
        let mut out = copy_range(&self.bytes, 0, self.bytes.len());
        assert(self@.subrange(0, self@.len() as int) =~= self@);
        if out.len() > 0 && out[out.len() - 1] != SEP {
            out.push(SEP);
        }
        let mut i: usize = 0;
        let ghost start = out@;
        assert(other@.take(0) =~= seq![]);
        assert(start + other@.take(0) =~= start);
        while i < other.bytes.len()
            invariant
                i <= other.bytes.len(),
                out@ == start + other@.take(i as int),
            decreases other.bytes.len() - i,
        {
            out.push(other.bytes[i]);
            i = i + 1;
            assert(out@ =~= start + other@.take(i as int));
        }
        assert(other@.take(other@.len() as int) =~= other@);
        FsPath { bytes: out }
    }

    /// This path with an entry name (or any bytes) joined onto it.
    pub fn join_name(&self, name: &Vec<u8>) -> (r: FsPath)
        ensures
            r@ == join_bytes(self@, name@),
    {
        let bytes = copy_range(name, 0, name.len());
        assert(name@.subrange(0, name@.len() as int) =~= name@);
        self.join(&FsPath { bytes })
    }

    /// This path with a text path joined onto it.
    pub fn join_text(&self, text: &str) -> (r: FsPath)
        ensures
            r@ == join_bytes(self@, encode_utf8(text@)),
    {
        self.join(&FsPath::from_text(text))
    }

    /// The path spelled by this text.
    pub fn from_text(text: &str) -> (r: FsPath)
        ensures
            r@ == encode_utf8(text@),
    {
        let b = text.as_bytes();
        let mut out: Vec<u8> = Vec::new();
        let mut i: usize = 0;
        while i < b.len()
            invariant
                i <= b@.len(),
                b@ == text.spec_bytes(),
                out@ == b@.take(i as int),
            decreases b@.len() - i,
        {
            out.push(b[i]);
            i = i + 1;
            assert(out@ =~= b@.take(i as int));
        }
        assert(b@.take(b@.len() as int) =~= b@);
        FsPath { bytes: out }
    }

    /// The parent path, as `Path::parent` gives it.
    pub fn parent(&self) -> (r: Option<FsPath>)
        ensures
            match r {
                Some(p) => parent_bytes(self@) == Some(p@),
                None => parent_bytes(self@) is None,
            },
    {
        let b = &self.bytes;
        let lo: usize = if b.len() > 0 && b[0] == SEP {
            1
        } else if b.len() > 0 && b[0] == DOT && (b.len() == 1 || b[1] == SEP) {
            1
        } else {
            0
        };
        assert(lo as int == lead_len(b@));
        let h = strip_end_exec(b, lo, b.len());
        proof {
            lemma_strip_end_bounds(b@, lo as int, b@.len() as int);
        }
        if h <= lo {
            if b.len() > 0 && b[0] == DOT && (b.len() == 1 || b[1] == SEP) {
                let empty: Vec<u8> = Vec::new();
                assert(empty@ =~= seq![]);
                return Some(FsPath { bytes: empty });
            } else {
                return None;
            }
        }
        let k1 = last_sep_end(b, lo, h);
        proof {
            lemma_last_sep_bounds(b@, lo as int, h as int);
        }
        let h2 = if k1 == lo {
            lo
        } else {
            strip_end_exec(b, lo, k1 - 1)
        };
        proof {
            if k1 != lo {
                lemma_strip_end_bounds(b@, lo as int, k1 - 1);
            }
        }
        let bytes = copy_range(b, 0, h2);
        assert(bytes@ =~= b@.take(h2 as int));
        Some(FsPath { bytes })
    }

    /// Compares two paths component by component.
    pub fn compare(&self, other: &FsPath) -> (r: Order)
        ensures
            r == path_order(self@, other@),
    {
        let a = self.components();
        let b = other.components();
        compare_components(&a, &b)
    }

    /// Whether the two paths have the same components.
    pub fn same_as(&self, other: &FsPath) -> (r: bool)
        ensures
            r == same_path(self@, other@),
    {
        let o = self.compare(other);
        proof {
            lemma_parts_order_laws(parts(self@), parts(other@));
        }
        match o {
            Order::Equal => true,
            _ => false,
        }
    }

    /// Whether `base`'s components begin this path's components.
    pub fn starts_with(&self, base: &FsPath) -> (r: bool)
        ensures
            r == path_starts_with(self@, base@),
    {
        let a = self.components();
        let b = base.components();
        let ghost pa = parts_of(a@);
        let ghost pb = parts_of(b@);
        if b.len() > a.len() {
            return false;
        }
        let mut i: usize = 0;
        while i < b.len()
            invariant
                b.len() <= a.len(),
                i <= b.len(),
                pa == parts_of(a@),
                pb == parts_of(b@),
                pa == parts(self@),
                pb == parts(base@),
                pa.take(i as int) == pb.take(i as int),
            decreases b.len() - i,
        {
            let c = compare_component(&a[i], &b[i]);
            proof {
                lemma_part_order_laws(a@[i as int]@, b@[i as int]@);
            }
            match c {
                Order::Equal => {},
                _ => {
                    assert(pa.take(pb.len() as int)[i as int] != pb[i as int]);
                    return false;
                },
            }
            assert(pa.take(i + 1) =~= pa.take(i as int).push(pa[i as int]));
            assert(pb.take(i + 1) =~= pb.take(i as int).push(pb[i as int]));
            i = i + 1;
        }
        assert(pb.take(pb.len() as int) =~= pb);
        true
    }

    /// A copy of this path.
    pub fn duplicate(&self) -> (r: FsPath)
        ensures
            r@ == self@,
    {
        let bytes = copy_range(&self.bytes, 0, self.bytes.len());
        assert(self@.subrange(0, self@.len() as int) =~= self@);
        FsPath { bytes }
    }

    /// The path as it is displayed: its bytes read as UTF-8, with invalid
    /// sequences replaced.
    pub fn display(&self) -> (r: String)
        ensures
            r@ == display_text(self@),
    {
        lossy_string(&self.bytes)
    }

    /// The path whose bytes are these.
    pub fn from_bytes(bytes: Vec<u8>) -> (r: FsPath)
        ensures
            r@ == bytes@,
    {
        FsPath { bytes }
    }

    /// The components of this path.
    pub fn components(&self) -> (r: Vec<Component>)
        ensures
            parts_of(r@) == parts(self@),
    {
        let b = &self.bytes;
        let ghost s = b@;
        let mut out: Vec<Component> = Vec::new();
        let mut start: usize = 0;
        if b.len() > 0 && b[0] == SEP {
            out.push(Component::Root);
            start = 1;
        } else if b.len() > 0 && b[0] == DOT && (b.len() == 1 || b[1] == SEP) {
            out.push(Component::Current);
            start = 1;
        }
        assert(parts_of(out@) =~= lead_parts(s));
        assert(start as int == lead_len(s));
        let mut done = false;
        while !done
            invariant
                start <= b.len(),
                b@ == s,
                !done ==> parts_of(out@) + body_parts(s, start as int) == parts(s),
                done ==> parts_of(out@) == parts(s),
            decreases b.len() - start + (if done { 0int } else { 1int }),
        {
            let j = find_sep(b, start);
            proof {
                lemma_sep_index_bounds(s, start as int);
            }
            let ghost before = parts_of(out@);
            push_segment(&mut out, b, start, j);
            if j >= b.len() {
                assert(before + segment_parts(s.subrange(start as int, j as int)) == parts(s));
                done = true;
            } else {
                assert(body_parts(s, start as int) == segment_parts(s.subrange(start as int, j as int))
                    + body_parts(s, j + 1));
                assert(parts_of(out@) + body_parts(s, j + 1) =~= before + body_parts(s, start as int));
                start = j + 1;
            }
        }
        out
    }
}


/// The paths of a vector, as values.
pub open spec fn paths_model(v: Seq<FsPath>) -> Seq<Seq<u8>> {
    v.map_values(|p: FsPath| p@)
}

/// The paths are in ascending component order.
pub open spec fn sorted_paths(s: Seq<Seq<u8>>) -> bool {
    forall|i: int, j: int| 0 <= i < j < s.len() ==> path_order(s[i], s[j]) != Order::Greater
}

/// `a` before `b` and `b` no later than `c` put `a` before `c`.
pub proof fn lemma_path_order_chain(a: Seq<u8>, b: Seq<u8>, c: Seq<u8>)
    requires
        path_order(a, b) == Order::Less,
        path_order(b, c) != Order::Greater,
    ensures
        path_order(a, c) == Order::Less,
{
    lemma_parts_order_laws(parts(b), parts(c));
    if path_order(b, c) == Order::Less {
        lemma_parts_order_transitive(parts(a), parts(b), parts(c));
    }
}


/// The index of the first path at or after `from` that orders after `x`,
/// or the length.
pub open spec fn first_after(s: Seq<Seq<u8>>, x: Seq<u8>, from: int) -> int
    decreases s.len() - from,
{
    if from >= s.len() {
        s.len() as int
    } else if path_order(s[from], x) == Order::Greater {
        from
    } else {
        first_after(s, x, from + 1)
    }
}

/// The paths sorted by insertion: each one placed after every path that
/// does not order after it.
pub open spec fn sorted_by_path(s: Seq<Seq<u8>>) -> Seq<Seq<u8>>
    decreases s.len(),
{
    if s.len() == 0 {
        s
    } else {
        let rest = sorted_by_path(s.drop_last());
        rest.insert(first_after(rest, s.last(), 0), s.last())
    }
}

pub proof fn lemma_first_after_bounds(s: Seq<Seq<u8>>, x: Seq<u8>, from: int)
    requires
        0 <= from <= s.len(),
    ensures
        from <= first_after(s, x, from) <= s.len(),
    decreases s.len() - from,
{
    if from < s.len() && path_order(s[from], x) != Order::Greater {
        lemma_first_after_bounds(s, x, from + 1);
    }
}

pub proof fn lemma_sorted_by_path_len(s: Seq<Seq<u8>>)
    ensures
        sorted_by_path(s).len() == s.len(),
    decreases s.len(),
{
    if s.len() > 0 {
        lemma_sorted_by_path_len(s.drop_last());
        lemma_first_after_bounds(sorted_by_path(s.drop_last()), s.last(), 0);
    }
}

/// Sorting keeps exactly the paths it was given.
pub proof fn lemma_sorted_by_path_contains(s: Seq<Seq<u8>>)
    ensures
        forall|x: Seq<u8>| #[trigger] sorted_by_path(s).contains(x) <==> s.contains(x),
    decreases s.len(),
{
    if s.len() > 0 {
        let rest = sorted_by_path(s.drop_last());
        lemma_sorted_by_path_contains(s.drop_last());
        lemma_first_after_bounds(rest, s.last(), 0);
        let k = first_after(rest, s.last(), 0);
        let out = rest.insert(k, s.last());
        assert forall|x: Seq<u8>| #[trigger] out.contains(x) <==> s.contains(x) by {
            if out.contains(x) {
                let i = choose|i: int| 0 <= i < out.len() && out[i] == x;
                if i == k {
                    assert(s[s.len() - 1] == x);
                } else if i < k {
                    assert(rest[i] == x);
                    assert(rest.contains(x));
                    let m = choose|m: int| 0 <= m < s.drop_last().len() && s.drop_last()[m] == x;
                    assert(s[m] == x);
                } else {
                    assert(rest[i - 1] == x);
                    assert(rest.contains(x));
                    let m = choose|m: int| 0 <= m < s.drop_last().len() && s.drop_last()[m] == x;
                    assert(s[m] == x);
                }
            }
            if s.contains(x) {
                let m = choose|m: int| 0 <= m < s.len() && s[m] == x;
                if m == s.len() - 1 {
                    assert(out[k] == x);
                } else {
                    assert(s.drop_last()[m] == x);
                    assert(s.drop_last().contains(x));
                    assert(rest.contains(x));
                    let i = choose|i: int| 0 <= i < rest.len() && rest[i] == x;
                    if i < k {
                        assert(out[i] == x);
                    } else {
                        assert(out[i + 1] == x);
                    }
                }
            }
        }
    }
}

/// Sorts paths into ascending component order, keeping equal paths in
/// the order they came in.
pub fn sort_paths(v: Vec<FsPath>) -> (r: Vec<FsPath>)
    ensures
        paths_model(r@) == sorted_by_path(paths_model(v@)),
        paths_model(r@).to_multiset() == paths_model(v@).to_multiset(),
        sorted_paths(paths_model(r@)),
{
    let mut out: Vec<FsPath> = Vec::new();
    let mut rest = v;
    let ghost all = paths_model(rest@);
    let mut i: usize = 0;
    proof {
        assert(paths_model(out@) =~= all.take(0));
        assert(sorted_by_path(all.take(0)) =~= all.take(0));
    }
    while i < rest.len()
        invariant
            i <= rest.len(),
            all == paths_model(rest@),
            paths_model(out@).to_multiset() == all.take(i as int).to_multiset(),
            paths_model(out@) == sorted_by_path(all.take(i as int)),
            sorted_paths(paths_model(out@)),
        decreases rest.len() - i,
    {
        let x = rest[i].duplicate();
        let ghost before = paths_model(out@);
        let mut k: usize = 0;
        while k < out.len() && !matches!(out[k].compare(&x), Order::Greater)
            invariant
                k <= out.len(),
                before == paths_model(out@),
                forall|m: int| 0 <= m < k ==> path_order(before[m], x@) != Order::Greater,
                first_after(before, x@, 0) == first_after(before, x@, k as int),
            decreases out.len() - k,
        {
            k = k + 1;
        }
        out.insert(k, x);
        let ghost after = paths_model(out@);
        proof {
            assert(after =~= before.insert(k as int, x@));
            vstd::seq_lib::to_multiset_insert(before, k as int, x@);
            assert(all.take(i + 1) =~= all.take(i as int).push(all[i as int]));
            assert(all.take(i + 1).drop_last() =~= all.take(i as int));
            assert(x@ == all[i as int]);
            vstd::seq_lib::to_multiset_build(all.take(i as int), all[i as int]);
            assert forall|a: int, b: int| 0 <= a < b < after.len() implies path_order(after[a], after[b]) != Order::Greater by {
                if b < k {
                    assert(after[a] == before[a] && after[b] == before[b]);
                } else if b == k {
                    assert(after[a] == before[a]);
                } else if a > k {
                    assert(after[a] == before[a - 1] && after[b] == before[b - 1]);
                } else if a == k {
                    assert(after[b] == before[b - 1]);
                    assert(path_order(before[k as int], x@) == Order::Greater);
                    lemma_parts_order_laws(parts(x@), parts(before[k as int]));
                    if k + 1 < b {
                        assert(path_order(before[k as int], before[b - 1]) != Order::Greater);
                        lemma_path_order_chain(x@, before[k as int], before[b - 1]);
                    }
                } else {
                    assert(after[a] == before[a] && after[b] == before[b - 1]);
                }
            }
        }
        i = i + 1;
    }
    proof {
        assert(all.take(rest.len() as int) =~= all);
    }
    out
}

} // verus!
