//! The identifier of a set of source files: a Base58 text of the SHA-1 digest of
//! their paths, taken in byte order.
use sha1::Digest;
use vstd::prelude::*;
use vstd::relations::{sorted_by, total_ordering};
use vstd::seq_lib::lemma_sorted_unique;
use vstd::utf8::encode_utf8;

verus! {

broadcast use vstd::seq_lib::group_to_multiset_ensures, vstd::multiset::group_multiset_axioms;

/// The SHA-1 digest of a byte sequence.
pub uninterp spec fn sha1_of(data: Seq<u8>) -> Seq<u8>;

/// The Base58 text of a byte sequence, in the Bitcoin alphabet.
pub uninterp spec fn base58_of(data: Seq<u8>) -> Seq<char>;

/// The characters of the Bitcoin Base58 alphabet: digits but `0`, letters but `I`,
/// `O` and `l`.
pub open spec fn is_base58_char(c: char) -> bool {
    ('1' <= c && c <= '9') || ('A' <= c && c <= 'Z' && c != 'I' && c != 'O') || ('a' <= c
        && c <= 'z' && c != 'l')
}

/// Lexicographic order on byte sequences, a prefix first.
pub open spec fn bytes_le(a: Seq<u8>, b: Seq<u8>) -> bool
    decreases a.len(),
{
    if a.len() == 0 {
        true
    } else if b.len() == 0 {
        false
    } else if a[0] != b[0] {
        a[0] < b[0]
    } else {
        bytes_le(a.drop_first(), b.drop_first())
    }
}

/// [`bytes_le`] as a relation.
pub open spec fn byte_order() -> spec_fn(Seq<u8>, Seq<u8>) -> bool {
    |a: Seq<u8>, b: Seq<u8>| bytes_le(a, b)
}

/// The UTF-8 bytes of each path.
pub open spec fn path_bytes(paths: Seq<Seq<char>>) -> Seq<Seq<u8>> {
    paths.map_values(|p: Seq<char>| encode_utf8(p))
}

/// A sequence without its repeats that stand next to each other.
pub open spec fn dedup_adjacent(s: Seq<Seq<u8>>) -> Seq<Seq<u8>>
    decreases s.len(),
{
    if s.len() == 0 {
        s
    } else {
        let r = dedup_adjacent(s.drop_last());
        if r.len() > 0 && r.last() == s.last() {
            r
        } else {
            r.push(s.last())
        }
    }
}

/// Byte strings, each followed by a zero byte, one after the other.
pub open spec fn terminated(s: Seq<Seq<u8>>) -> Seq<u8> {
    s.map_values(|p: Seq<u8>| p.push(0u8)).flatten()
}

/// What is hashed for a set of paths: their bytes in byte order, each path once and
/// followed by a zero byte.
pub open spec fn hash_input(paths: Seq<Seq<char>>) -> Seq<u8> {
    terminated(dedup_adjacent(path_bytes(paths).sort_by(byte_order())))
}

/// The identifier of a set of paths.
pub open spec fn identity_of(paths: Seq<Seq<char>>) -> Seq<char> {
    base58_of(sha1_of(hash_input(paths)))
}

/// The name of the work directory for a set of paths.
pub open spec fn work_dir_of(paths: Seq<Seq<char>>) -> Seq<char> {
    "cargo-play."@ + identity_of(paths)
}

/// The views of a sequence of byte vectors.
pub open spec fn byte_views(v: Seq<Vec<u8>>) -> Seq<Seq<u8>> {
    v.map_values(|b: Vec<u8>| b@)
}

/// Relies on sha1's `Digest::digest` for `Sha1`: the SHA-1 digest of the data,
/// which is 20 bytes long.
#[verifier::external_body]
fn sha1_digest(data: &Vec<u8>) -> (r: Vec<u8>)
    ensures
        r@ == sha1_of(data@),
        r@.len() == 20,
{
    sha1::Sha1::digest(data.as_slice()).to_vec()
}

/// Relies on `bs58::encode(..).into_string()`: the Base58 text of the data, written
/// in the default (Bitcoin) alphabet.
#[verifier::external_body]
fn base58_encode(data: &Vec<u8>) -> (r: String)
    ensures
        r@ == base58_of(data@),
        forall|i: int| 0 <= i < r@.len() ==> is_base58_char(#[trigger] r@[i]),
        data@.len() > 0 ==> r@.len() > 0,
        r@.len() <= data@.len() + (data@.len() + 1) / 2,
{
    bs58::encode(data.as_slice()).into_string()
}

proof fn lemma_bytes_le_reflexive(a: Seq<u8>)
    ensures
        bytes_le(a, a),
    decreases a.len(),
{
    if a.len() > 0 {
        lemma_bytes_le_reflexive(a.drop_first());
    }
}

proof fn lemma_bytes_le_antisymmetric(a: Seq<u8>, b: Seq<u8>)
    requires
        bytes_le(a, b),
        bytes_le(b, a),
    ensures
        a == b,
    decreases a.len(),
{
    if a.len() > 0 && b.len() > 0 {
        lemma_bytes_le_antisymmetric(a.drop_first(), b.drop_first());
        assert(a =~= seq![a[0]] + a.drop_first());
        assert(b =~= seq![b[0]] + b.drop_first());
    }
}

proof fn lemma_bytes_le_transitive(a: Seq<u8>, b: Seq<u8>, c: Seq<u8>)
    requires
        bytes_le(a, b),
        bytes_le(b, c),
    ensures
        bytes_le(a, c),
    decreases a.len(),
{
    if a.len() > 0 && b.len() > 0 && c.len() > 0 && a[0] == b[0] && b[0] == c[0] {
        lemma_bytes_le_transitive(a.drop_first(), b.drop_first(), c.drop_first());
    }
}

proof fn lemma_bytes_le_total(a: Seq<u8>, b: Seq<u8>)
    ensures
        bytes_le(a, b) || bytes_le(b, a),
    decreases a.len(),
{
    if a.len() > 0 && b.len() > 0 && a[0] == b[0] {
        lemma_bytes_le_total(a.drop_first(), b.drop_first());
    }
}

/// Byte order is a total order.
pub proof fn lemma_byte_order_total()
    ensures
        total_ordering(byte_order()),
{
    assert forall|a: Seq<u8>| #[trigger] byte_order()(a, a) by {
        lemma_bytes_le_reflexive(a);
    }
    assert forall|a: Seq<u8>, b: Seq<u8>|
        #[trigger] byte_order()(a, b) && #[trigger] byte_order()(b, a) implies a == b by {
        lemma_bytes_le_antisymmetric(a, b);
    }
    assert forall|a: Seq<u8>, b: Seq<u8>, c: Seq<u8>|
        #[trigger] byte_order()(a, b) && #[trigger] byte_order()(b, c) implies byte_order()(
        a,
        c,
    ) by {
        lemma_bytes_le_transitive(a, b, c);
    }
    assert forall|a: Seq<u8>, b: Seq<u8>| #[trigger] byte_order()(a, b) || #[trigger] byte_order()(
        b,
        a,
    ) by {
        lemma_bytes_le_total(a, b);
    }
}

/// Whether `a` comes before `b` or equals it, in byte order.
pub fn bytes_le_exec(a: &Vec<u8>, b: &Vec<u8>) -> (r: bool)
    ensures
        r == bytes_le(a@, b@),
{
    let mut i: usize = 0;
    assert(a@.skip(0) =~= a@);
    assert(b@.skip(0) =~= b@);
    while i < a.len() && i < b.len() && a[i] == b[i]
        invariant
            i <= a@.len(),
            i <= b@.len(),
            bytes_le(a@, b@) == bytes_le(a@.skip(i as int), b@.skip(i as int)),
        decreases a@.len() - i,
    {
        assert(a@.skip(i as int).drop_first() =~= a@.skip(i + 1));
        assert(b@.skip(i as int).drop_first() =~= b@.skip(i + 1));
        i = i + 1;
    }
    if i == a.len() {
        true
    } else if i == b.len() {
        false
    } else {
        a[i] < b[i]
    }
}

/// Inserts `x` into a sorted vector so that it stays sorted.
fn insert_sorted(v: &mut Vec<Vec<u8>>, x: Vec<u8>)
    requires
        sorted_by(byte_views(old(v)@), byte_order()),
    ensures
        sorted_by(byte_views(final(v)@), byte_order()),
        byte_views(final(v)@).to_multiset() == byte_views(old(v)@).to_multiset().insert(x@),
{
    proof {
        lemma_byte_order_total();
    }
    let ghost s = byte_views(v@);
    let mut p: usize = 0;
    while p < v.len() && bytes_le_exec(&v[p], &x)
        invariant
            p <= v@.len(),
            s == byte_views(v@),
            sorted_by(s, byte_order()),
            forall|k: int| 0 <= k < p ==> bytes_le(#[trigger] s[k], x@),
        decreases v@.len() - p,
    {
        p = p + 1;
    }
    proof {
        assert forall|k: int| p <= k < s.len() implies bytes_le(x@, #[trigger] s[k]) by {
            lemma_bytes_le_total(x@, s[p as int]);
            assert(byte_order()(s[p as int], s[k]) || k == p);
            lemma_bytes_le_transitive(x@, s[p as int], s[k]);
        }
    }
    v.insert(p, x);
    proof {
        let t = byte_views(v@);
        assert(t =~= s.insert(p as int, x@));
        vstd::seq_lib::to_multiset_insert(s, p as int, x@);
        assert forall|i: int, j: int| 0 <= i < j < t.len() implies #[trigger] byte_order()(
            t[i],
            t[j],
        ) by {
            if i < p && j == p {
            } else if i == p {
            } else {
                let i0 = if i < p { i } else { i - 1 };
                let j0 = if j < p { j } else { j - 1 };
                assert(byte_order()(s[i0], s[j0]));
            }
        }
    }
}

/// Sorts byte vectors in byte order.
fn sort_bytes(items: Vec<Vec<u8>>) -> (r: Vec<Vec<u8>>)
    ensures
        sorted_by(byte_views(r@), byte_order()),
        byte_views(r@).to_multiset() == byte_views(items@).to_multiset(),
{
    let mut r: Vec<Vec<u8>> = Vec::new();
    let mut rest = items;
    let ghost all = byte_views(rest@);
    while rest.len() > 0
        invariant
            sorted_by(byte_views(r@), byte_order()),
            byte_views(r@).to_multiset().add(byte_views(rest@).to_multiset()) == all.to_multiset(),
        decreases rest@.len(),
    {
        let ghost before = byte_views(rest@);
        let x = rest.pop().unwrap();
        proof {
            assert(before =~= byte_views(rest@).push(x@));
        }
        insert_sorted(&mut r, x);
    }
    proof {
        assert(byte_views(rest@) =~= Seq::<Seq<u8>>::empty());
        assert(byte_views(r@).to_multiset() =~= all.to_multiset());
    }
    r
}

/// Sorted byte vectors without their repeats.
fn dedup_sorted(items: Vec<Vec<u8>>) -> (r: Vec<Vec<u8>>)
    ensures
        byte_views(r@) == dedup_adjacent(byte_views(items@)),
{
    let mut r: Vec<Vec<u8>> = Vec::new();
    let mut i: usize = 0;
    let ghost all = byte_views(items@);
    let n = items.len();
    let mut rest = items;
    while rest.len() > 0
        invariant
            all.len() == n,
            all.len() == i + rest@.len(),
            byte_views(rest@) =~= all.skip(i as int),
            byte_views(r@) == dedup_adjacent(all.take(i as int)),
        decreases rest@.len(),
    {
        let ghost old_rest = byte_views(rest@);
        let ghost r0 = byte_views(r@);
        let b = rest.remove(0);
        proof {
            assert(b@ == old_rest[0]);
            assert(old_rest[0] == all[i as int]);
            assert(all.take(i + 1).drop_last() =~= all.take(i as int));
            assert(all.take(i + 1).last() == b@);
            assert(byte_views(rest@) =~= old_rest.drop_first());
            assert(byte_views(rest@) =~= all.skip(i + 1));
        }
        let same = r.len() > 0 && bytes_le_exec(&r[r.len() - 1], &b) && bytes_le_exec(
            &b,
            &r[r.len() - 1],
        );
        proof {
            if r0.len() > 0 {
                assert(r0.last() == r@[r@.len() - 1]@);
                if bytes_le(r0.last(), b@) && bytes_le(b@, r0.last()) {
                    lemma_bytes_le_antisymmetric(r0.last(), b@);
                }
                if r0.last() == b@ {
                    lemma_bytes_le_reflexive(b@);
                }
            }
        }
        if !same {
            r.push(b);
            proof {
                assert(byte_views(r@) =~= r0.push(all[i as int]));
            }
        }
        i = i + 1;
    }
    proof {
        assert(all.take(i as int) =~= all);
    }
    r
}

/// The bytes of sorted paths, each followed by a zero byte.
fn concat_bytes(items: Vec<Vec<u8>>) -> (r: Vec<u8>)
    ensures
        r@ == terminated(byte_views(items@)),
{
    let mut r: Vec<u8> = Vec::new();
    let mut i: usize = 0;
    let ghost all = byte_views(items@);
    let ghost ends = all.map_values(|p: Seq<u8>| p.push(0u8));
    let n = items.len();
    let mut rest = items;
    while rest.len() > 0
        invariant
            all.len() == n,
            ends == all.map_values(|p: Seq<u8>| p.push(0u8)),
            all.len() == i + rest@.len(),
            byte_views(rest@) =~= all.skip(i as int),
            r@ == ends.take(i as int).flatten(),
        decreases rest@.len(),
    {
        let ghost old_rest = byte_views(rest@);
        let mut b = rest.remove(0);
        proof {
            assert(b@ == old_rest[0]);
            assert(old_rest[0] == all[i as int]);
            assert(ends.take(i + 1) =~= ends.take(i as int).push(b@.push(0u8)));
            ends.take(i as int).lemma_flatten_push(b@.push(0u8));
            assert(byte_views(rest@) =~= old_rest.drop_first());
            assert(byte_views(rest@) =~= all.skip(i + 1));
        }
        let ghost r0 = r@;
        let ghost bv = b@;
        r.append(&mut b);
        r.push(0u8);
        proof {
            assert(r@ =~= r0 + bv.push(0u8));
        }
        i = i + 1;
    }
    proof {
        assert(ends.take(i as int) =~= ends);
    }
    r
}

/// The identifier of a set of source paths: the Base58 text of the SHA-1 digest of
/// their UTF-8 bytes, path after path in byte order.
pub fn identity(paths: &Vec<String>) -> (r: String)
    ensures
        r@ == identity_of(crate::text::texts(paths@)),
        forall|i: int| 0 <= i < r@.len() ==> is_base58_char(#[trigger] r@[i]),
        0 < r@.len() <= 30,
{
    let mut items: Vec<Vec<u8>> = Vec::new();
    let mut i: usize = 0;
    while i < paths.len()
        invariant
            i <= paths@.len(),
            byte_views(items@) =~= path_bytes(crate::text::texts(paths@)).take(i as int),
        decreases paths@.len() - i,
    {
        let b = paths[i].as_str().as_bytes_vec();
        proof {
            let t = crate::text::texts(paths@);
            assert(t[i as int] == paths@[i as int]@);
            assert(b@ == encode_utf8(t[i as int]));
            assert(path_bytes(t).take(i + 1) =~= path_bytes(t).take(i as int).push(b@));
        }
        items.push(b);
        proof {
            assert(byte_views(items@) =~= byte_views(items@).drop_last().push(b@));
        }
        i = i + 1;
    }
    let ghost input = path_bytes(crate::text::texts(paths@));
    proof {
        assert(input.take(i as int) =~= input);
    }
    let sorted = sort_bytes(items);
    proof {
        lemma_byte_order_total();
        input.lemma_sort_by_ensures(byte_order());
        lemma_sorted_unique(byte_views(sorted@), input.sort_by(byte_order()), byte_order());
    }
    let unique = dedup_sorted(sorted);
    let data = concat_bytes(unique);
    let digest = sha1_digest(&data);
    base58_encode(&digest)
}

proof fn lemma_seq_set_push(s: Seq<Seq<u8>>, x: Seq<u8>)
    ensures
        s.push(x).to_set() == s.to_set().insert(x),
{
    assert forall|y: Seq<u8>| #[trigger] s.push(x).contains(y) <==> s.contains(y) || y == x by {
        if s.push(x).contains(y) {
            let i = choose|i: int| 0 <= i < s.push(x).len() && s.push(x)[i] == y;
            if i < s.len() {
                assert(s[i] == y);
            }
        }
        if s.contains(y) {
            let i = choose|i: int| 0 <= i < s.len() && s[i] == y;
            assert(s.push(x)[i] == y);
        }
        if y == x {
            assert(s.push(x)[s.len() as int] == y);
        }
    }
    assert(s.push(x).to_set() =~= s.to_set().insert(x));
}

/// Dropping the repeats of a sorted sequence leaves it sorted, without repeats, and
/// with the same elements.
proof fn lemma_dedup_sorted(s: Seq<Seq<u8>>)
    requires
        sorted_by(s, byte_order()),
    ensures
        sorted_by(dedup_adjacent(s), byte_order()),
        dedup_adjacent(s).no_duplicates(),
        dedup_adjacent(s).to_set() == s.to_set(),
    decreases s.len(),
{
    lemma_byte_order_total();
    if s.len() == 0 {
        assert(s.to_set() =~= dedup_adjacent(s).to_set());
    } else {
        let p = s.drop_last();
        let x = s.last();
        let r = dedup_adjacent(p);
        assert(sorted_by(p, byte_order())) by {
            assert forall|i: int, j: int| 0 <= i < j < p.len() implies #[trigger] byte_order()(
                p[i],
                p[j],
            ) by {
                assert(byte_order()(s[i], s[j]));
            }
        }
        lemma_dedup_sorted(p);
        assert(s =~= p.push(x));
        lemma_seq_set_push(p, x);
        assert forall|k: int| 0 <= k < r.len() implies bytes_le(#[trigger] r[k], x) by {
            assert(r.contains(r[k]));
            assert(r.to_set().contains(r[k]));
            assert(p.contains(r[k]));
            let i = choose|i: int| 0 <= i < p.len() && p[i] == r[k];
            assert(byte_order()(s[i], s[s.len() - 1]));
        }
        if r.len() > 0 && r.last() == x {
            assert(r.contains(x));
            assert(r.to_set() =~= r.to_set().insert(x));
        } else {
            let t = r.push(x);
            lemma_seq_set_push(r, x);
            assert forall|i: int, j: int| 0 <= i < j < t.len() implies #[trigger] byte_order()(
                t[i],
                t[j],
            ) by {
                if j == r.len() {
                    assert(bytes_le(r[i], x));
                } else {
                    assert(byte_order()(r[i], r[j]));
                }
            }
            assert forall|i: int, j: int| 0 <= i < t.len() && 0 <= j < t.len() && i != j implies t[i]
                != t[j] by {
                if j == r.len() && i < r.len() {
                    if r[i] == x {
                        let l = r.len() - 1;
                        if i < l {
                            assert(byte_order()(r[i], r[l]));
                        }
                        lemma_bytes_le_reflexive(x);
                        assert(bytes_le(r[l], x));
                        lemma_bytes_le_antisymmetric(r[l], x);
                    }
                } else if i == r.len() && j < r.len() {
                    if r[j] == x {
                        let l = r.len() - 1;
                        if j < l {
                            assert(byte_order()(r[j], r[l]));
                        }
                        lemma_bytes_le_reflexive(x);
                        assert(bytes_le(r[l], x));
                        lemma_bytes_le_antisymmetric(r[l], x);
                    }
                } else {
                    assert(t[i] == r[i] && t[j] == r[j]);
                }
            }
        }
    }
}

proof fn lemma_same_set_same_multiset(a: Seq<Seq<u8>>, b: Seq<Seq<u8>>)
    requires
        a.no_duplicates(),
        b.no_duplicates(),
        a.to_set() == b.to_set(),
    ensures
        a.to_multiset() == b.to_multiset(),
{
    a.lemma_multiset_has_no_duplicates();
    b.lemma_multiset_has_no_duplicates();
    assert forall|x: Seq<u8>| a.to_multiset().count(x) == b.to_multiset().count(x) by {
        assert(a.to_set().contains(x) == a.contains(x));
        assert(b.to_set().contains(x) == b.contains(x));
    }
    assert(a.to_multiset() =~= b.to_multiset());
}

proof fn lemma_sorted_same_set(s: Seq<Seq<u8>>)
    requires
        total_ordering(byte_order()),
    ensures
        s.sort_by(byte_order()).to_set() == s.to_set(),
{
    s.lemma_sort_by_ensures(byte_order());
    let t = s.sort_by(byte_order());
    assert forall|x: Seq<u8>| #[trigger] t.contains(x) <==> s.contains(x) by {
        assert(t.contains(x) <==> t.to_multiset().count(x) > 0);
        assert(s.contains(x) <==> s.to_multiset().count(x) > 0);
    }
    assert(t.to_set() =~= s.to_set());
}

/// The identifier of paths depends on the set of paths alone: neither their order
/// nor a repeat changes it.
pub proof fn lemma_identity_depends_on_set(a: Seq<Seq<char>>, b: Seq<Seq<char>>)
    requires
        a.to_set() == b.to_set(),
    ensures
        hash_input(a) == hash_input(b),
        identity_of(a) == identity_of(b),
        work_dir_of(a) == work_dir_of(b),
{
    let pa = path_bytes(a);
    let pb = path_bytes(b);
    assert forall|x: Seq<u8>| #[trigger] pa.contains(x) ==> pb.contains(x) by {
        if pa.contains(x) {
            let i = choose|i: int| 0 <= i < pa.len() && pa[i] == x;
            assert(a.contains(a[i]));
            assert(b.to_set().contains(a[i]));
            let j = choose|j: int| 0 <= j < b.len() && b[j] == a[i];
            assert(pb[j] == x);
        }
    }
    assert forall|x: Seq<u8>| #[trigger] pb.contains(x) ==> pa.contains(x) by {
        if pb.contains(x) {
            let i = choose|i: int| 0 <= i < pb.len() && pb[i] == x;
            assert(b.contains(b[i]));
            assert(a.to_set().contains(b[i]));
            let j = choose|j: int| 0 <= j < a.len() && a[j] == b[i];
            assert(pa[j] == x);
        }
    }
    assert(pa.to_set() =~= pb.to_set());
    lemma_byte_order_total();
    pa.lemma_sort_by_ensures(byte_order());
    pb.lemma_sort_by_ensures(byte_order());
    lemma_sorted_same_set(pa);
    lemma_sorted_same_set(pb);
    let sa = pa.sort_by(byte_order());
    let sb = pb.sort_by(byte_order());
    lemma_dedup_sorted(sa);
    lemma_dedup_sorted(sb);
    lemma_same_set_same_multiset(dedup_adjacent(sa), dedup_adjacent(sb));
    lemma_sorted_unique(dedup_adjacent(sa), dedup_adjacent(sb), byte_order());
}

} // verus!
