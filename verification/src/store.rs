use vstd::prelude::*;

use crate::models::DbPost;

verus! {

/// Spec-level image of one stored post row.
#[verifier::ext_equal]
pub struct PostV {
    pub uri: Seq<char>,
    pub text: Seq<char>,
    pub pinned: bool,
    pub deleted: bool,
    pub priority: int,
    pub timestamp: int,
}

/// Spec-level image of one like row.
#[verifier::ext_equal]
pub struct LikeV {
    pub post_uri: Seq<char>,
    pub like_uri: Seq<char>,
}

struct StoredPost {
    uri: String,
    text: String,
    pinned: bool,
    deleted: bool,
    priority: i64,
    timestamp: i64,
}

impl View for StoredPost {
    type V = PostV;

    closed spec fn view(&self) -> PostV {
        PostV {
            uri: self.uri@,
            text: self.text@,
            pinned: self.pinned,
            deleted: self.deleted,
            priority: self.priority as int,
            timestamp: self.timestamp as int,
        }
    }
}

struct LikeRow {
    post_uri: String,
    like_uri: String,
}

impl View for LikeRow {
    type V = LikeV;

    closed spec fn view(&self) -> LikeV {
        LikeV { post_uri: self.post_uri@, like_uri: self.like_uri@ }
    }
}

/// The subsequence of elements satisfying pred, in order.
pub open spec fn retain<A>(s: Seq<A>, pred: spec_fn(A) -> bool) -> Seq<A>
    decreases s.len(),
{
    if s.len() == 0 {
        s
    } else if pred(s[0]) {
        seq![s[0]] + retain(s.drop_first(), pred)
    } else {
        retain(s.drop_first(), pred)
    }
}

/// What retain keeps: only elements satisfying pred, every such element, and
/// nothing from outside the sequence.
pub proof fn lemma_retain_props<A>(s: Seq<A>, pred: spec_fn(A) -> bool)
    ensures
        retain(s, pred).len() <= s.len(),
        forall|i: int| 0 <= i < retain(s, pred).len() ==> pred(#[trigger] retain(s, pred)[i]),
        forall|i: int| 0 <= i < retain(s, pred).len() ==> s.contains(#[trigger] retain(s, pred)[i]),
        forall|x: A| s.contains(x) && pred(x) ==> retain(s, pred).contains(x),
    decreases s.len(),
{
    if s.len() == 0 {
    } else {
        let rest = s.drop_first();
        lemma_retain_props(rest, pred);
        assert forall|x: A| rest.contains(x) implies s.contains(x) by {
            let j = choose|j: int| 0 <= j < rest.len() && rest[j] == x;
            assert(s[j + 1] == x);
        }
        assert forall|x: A| s.contains(x) && pred(x) implies retain(s, pred).contains(x) by {
            let j = choose|j: int| 0 <= j < s.len() && s[j] == x;
            if j == 0 {
                assert(retain(s, pred)[0] == x);
            } else {
                assert(rest[j - 1] == x);
                assert(rest.contains(x));
                assert(retain(rest, pred).contains(x));
                let k = choose|k: int| 0 <= k < retain(rest, pred).len() && retain(rest, pred)[k]
                    == x;
                if pred(s[0]) {
                    assert(retain(s, pred)[k + 1] == x);
                }
            }
        }
        if pred(s[0]) {
            assert forall|i: int| 0 <= i < retain(s, pred).len() implies s.contains(
                #[trigger] retain(s, pred)[i],
            ) by {
                if i > 0 {
                    assert(retain(s, pred)[i] == retain(rest, pred)[i - 1]);
                    assert(rest.contains(retain(rest, pred)[i - 1]));
                }
            }
        } else {
            assert forall|i: int| 0 <= i < retain(s, pred).len() implies s.contains(
                #[trigger] retain(s, pred)[i],
            ) by {
                assert(rest.contains(retain(rest, pred)[i]));
            }
        }
    }
}

/// retain keeps a sequence whose elements all satisfy pred unchanged.
pub proof fn lemma_retain_all_true<A>(s: Seq<A>, pred: spec_fn(A) -> bool)
    requires
        forall|i: int| 0 <= i < s.len() ==> pred(#[trigger] s[i]),
    ensures
        retain(s, pred) == s,
    decreases s.len(),
{
    if s.len() == 0 {
        assert(retain(s, pred) =~= s);
    } else {
        lemma_retain_all_true(s.drop_first(), pred);
        assert(retain(s, pred) =~= s);
    }
}

/// retain distributes over concatenation.
pub proof fn lemma_retain_distributes<A>(a: Seq<A>, b: Seq<A>, pred: spec_fn(A) -> bool)
    ensures
        retain(a + b, pred) == retain(a, pred) + retain(b, pred),
    decreases a.len(),
{
    if a.len() == 0 {
        assert(a + b =~= b);
        assert(retain(a, pred) + retain(b, pred) =~= retain(b, pred));
    } else {
        assert((a + b)[0] == a[0]);
        assert((a + b).drop_first() =~= a.drop_first() + b);
        lemma_retain_distributes(a.drop_first(), b, pred);
        if pred(a[0]) {
            assert(retain(a + b, pred) =~= retain(a, pred) + retain(b, pred));
        } else {
            assert(retain(a + b, pred) =~= retain(a, pred) + retain(b, pred));
        }
    }
}

/// Posts ordered by ingestion timestamp, newest first.
pub open spec fn sorted_desc(s: Seq<PostV>) -> bool {
    forall|i: int, j: int|
        0 <= i < j < s.len() ==> #[trigger] s[i].timestamp >= #[trigger] s[j].timestamp
}

/// No two rows share a URI.
pub open spec fn unique_uris(s: Seq<PostV>) -> bool {
    forall|i: int, j: int| 0 <= i < j < s.len() ==> #[trigger] s[i].uri != #[trigger] s[j].uri
}

/// Some row carries this URI.
pub open spec fn uri_in(s: Seq<PostV>, uri: Seq<char>) -> bool {
    exists|i: int| 0 <= i < s.len() && #[trigger] s[i].uri == uri
}

/// Some like row equals this one.
pub open spec fn like_in(ls: Seq<LikeV>, l: LikeV) -> bool {
    exists|i: int| 0 <= i < ls.len() && #[trigger] ls[i] == l
}

/// No two like rows share the (post URI, like URI) composite key.
pub open spec fn unique_likes(ls: Seq<LikeV>) -> bool {
    forall|i: int, j: int| 0 <= i < j < ls.len() ==> #[trigger] ls[i] != #[trigger] ls[j]
}

/// Referential integrity: every like row points at a present post row.
pub open spec fn likes_reference(ls: Seq<LikeV>, ps: Seq<PostV>) -> bool {
    forall|i: int| 0 <= i < ls.len() ==> uri_in(ps, (#[trigger] ls[i]).post_uri)
}

/// The post rows with any row carrying this URI removed.
pub open spec fn remove_uri(s: Seq<PostV>, uri: Seq<char>) -> Seq<PostV> {
    retain(s, |p: PostV| p.uri != uri)
}

/// The like rows with every row referencing this post URI removed.
pub open spec fn likes_without_post(ls: Seq<LikeV>, uri: Seq<char>) -> Seq<LikeV> {
    retain(ls, |l: LikeV| l.post_uri != uri)
}

/// The like rows with every row keyed by this like URI removed.
pub open spec fn likes_without_like(ls: Seq<LikeV>, like_uri: Seq<char>) -> Seq<LikeV> {
    retain(ls, |l: LikeV| l.like_uri != like_uri)
}

/// The like rows whose referenced post is still present.
pub open spec fn likes_referencing(ls: Seq<LikeV>, ps: Seq<PostV>) -> Seq<LikeV> {
    retain(ls, |l: LikeV| uri_in(ps, l.post_uri))
}

/// How many leading rows are at least as recent as timestamp t: the position
/// where a new row with timestamp t is inserted to keep the newest-first
/// order, below any already-present row with the same timestamp.
pub open spec fn insertion_point(s: Seq<PostV>, t: int) -> int
    decreases s.len(),
{
    if s.len() == 0 {
        0
    } else if s[0].timestamp >= t {
        1 + insertion_point(s.drop_first(), t)
    } else {
        0
    }
}

/// The post rows after an upsert of v: any old row with v's URI is replaced,
/// and v sits at its timestamp's place in the newest-first order.
pub open spec fn upsert_seq(s: Seq<PostV>, v: PostV) -> Seq<PostV> {
    let cleared = remove_uri(s, v.uri);
    cleared.insert(insertion_point(cleared, v.timestamp), v)
}

/// The non-deleted rows, in store order.
pub open spec fn visible_of(s: Seq<PostV>) -> Seq<PostV> {
    retain(s, |p: PostV| !p.deleted)
}

/// All elements pairwise distinct.
pub open spec fn distinct<A>(s: Seq<A>) -> bool {
    forall|i: int, j: int| 0 <= i < j < s.len() ==> #[trigger] s[i] != #[trigger] s[j]
}

/// retain keeps pairwise-distinct elements pairwise distinct.
pub proof fn lemma_retain_distinct<A>(s: Seq<A>, pred: spec_fn(A) -> bool)
    requires
        distinct(s),
    ensures
        distinct(retain(s, pred)),
    decreases s.len(),
{
    if s.len() > 0 {
        let rest = s.drop_first();
        assert forall|i: int, j: int| 0 <= i < j < rest.len() implies #[trigger] rest[i]
            != #[trigger] rest[j] by {
            assert(s[i + 1] != s[j + 1]);
        }
        lemma_retain_distinct(rest, pred);
        lemma_retain_props(rest, pred);
        if pred(s[0]) {
            let r = retain(s, pred);
            assert forall|i: int, j: int| 0 <= i < j < r.len() implies #[trigger] r[i]
                != #[trigger] r[j] by {
                if i == 0 {
                    assert(r[j] == retain(rest, pred)[j - 1]);
                    assert(rest.contains(retain(rest, pred)[j - 1]));
                    let m = choose|m: int| 0 <= m < rest.len() && rest[m] == retain(rest, pred)[j
                        - 1];
                    assert(s[0] != s[m + 1]);
                } else {
                    assert(r[i] == retain(rest, pred)[i - 1]);
                    assert(r[j] == retain(rest, pred)[j - 1]);
                }
            }
        }
    }
}

/// Removing a URI keeps the newest-first order and the uniqueness of URIs.
pub proof fn lemma_remove_uri_sorted_unique(s: Seq<PostV>, uri: Seq<char>)
    requires
        sorted_desc(s),
        unique_uris(s),
    ensures
        sorted_desc(remove_uri(s, uri)),
        unique_uris(remove_uri(s, uri)),
    decreases s.len(),
{
    if s.len() > 0 {
        let rest = s.drop_first();
        assert forall|i: int, j: int| 0 <= i < j < rest.len() implies (#[trigger] rest[i]).timestamp
            >= (#[trigger] rest[j]).timestamp && rest[i].uri != rest[j].uri by {
            assert(s[i + 1].timestamp >= s[j + 1].timestamp);
            assert(s[i + 1].uri != s[j + 1].uri);
        }
        lemma_remove_uri_sorted_unique(rest, uri);
        lemma_retain_props(rest, |p: PostV| p.uri != uri);
        if s[0].uri != uri {
            let r = remove_uri(s, uri);
            let rr = remove_uri(rest, uri);
            assert forall|x: PostV| rest.contains(x) implies s[0].timestamp >= x.timestamp && s[0].uri
                != x.uri by {
                let m = choose|m: int| 0 <= m < rest.len() && rest[m] == x;
                assert(s[0].timestamp >= s[m + 1].timestamp);
                assert(s[0].uri != s[m + 1].uri);
            }
            assert forall|i: int, j: int| 0 <= i < j < r.len() implies (#[trigger] r[i]).timestamp
                >= (#[trigger] r[j]).timestamp && r[i].uri != r[j].uri by {
                if i == 0 {
                    assert(r[j] == rr[j - 1]);
                    assert(rest.contains(rr[j - 1]));
                } else {
                    assert(r[i] == rr[i - 1]);
                    assert(r[j] == rr[j - 1]);
                }
            }
        }
    }
}

/// Which URIs remain after removing one: all the others.
pub proof fn lemma_remove_uri_membership(s: Seq<PostV>, uri: Seq<char>)
    ensures
        forall|i: int| 0 <= i < remove_uri(s, uri).len() ==> (#[trigger] remove_uri(s, uri)[i]).uri
            != uri,
        forall|i: int| 0 <= i < remove_uri(s, uri).len() ==> s.contains(
            #[trigger] remove_uri(s, uri)[i],
        ),
        forall|u: Seq<char>| u != uri && uri_in(s, u) ==> uri_in(remove_uri(s, uri), u),
{
    lemma_retain_props(s, |p: PostV| p.uri != uri);
    assert forall|u: Seq<char>| u != uri && uri_in(s, u) implies uri_in(
        remove_uri(s, uri),
        u,
    ) by {
        let j = choose|j: int| 0 <= j < s.len() && (#[trigger] s[j]).uri == u;
        assert(s.contains(s[j]));
        assert(remove_uri(s, uri).contains(s[j]));
        let k = choose|k: int| 0 <= k < remove_uri(s, uri).len() && remove_uri(s, uri)[k] == s[j];
        assert(remove_uri(s, uri)[k].uri == u);
    }
}

/// insertion_point stays within the sequence.
pub proof fn lemma_insertion_point_bounds(s: Seq<PostV>, t: int)
    ensures
        0 <= insertion_point(s, t) <= s.len(),
    decreases s.len(),
{
    if s.len() > 0 && s[0].timestamp >= t {
        lemma_insertion_point_bounds(s.drop_first(), t);
    }
}

/// insertion_point is the unique boundary: everything before it is at least
/// as recent as t, and the row at it (if any) is older.
pub proof fn lemma_insertion_point_charac(s: Seq<PostV>, t: int, k: int)
    requires
        0 <= k <= s.len(),
        forall|j: int| 0 <= j < k ==> (#[trigger] s[j]).timestamp >= t,
        k < s.len() ==> s[k].timestamp < t,
    ensures
        insertion_point(s, t) == k,
    decreases s.len(),
{
    if s.len() == 0 {
    } else if k == 0 {
    } else {
        assert(s[0].timestamp >= t);
        let rest = s.drop_first();
        assert forall|j: int| 0 <= j < k - 1 implies (#[trigger] rest[j]).timestamp >= t by {
            assert(s[j + 1].timestamp >= t);
        }
        assert(k - 1 < rest.len() ==> rest[k - 1].timestamp < t);
        lemma_insertion_point_charac(rest, t, k - 1);
    }
}

/// Inserting at the timestamp boundary keeps the newest-first order.
pub proof fn lemma_insert_sorted(s: Seq<PostV>, v: PostV, k: int)
    requires
        sorted_desc(s),
        0 <= k <= s.len(),
        forall|j: int| 0 <= j < k ==> (#[trigger] s[j]).timestamp >= v.timestamp,
        k < s.len() ==> s[k].timestamp < v.timestamp,
    ensures
        sorted_desc(s.insert(k, v)),
{
    s.insert_ensures(k, v);
    let r = s.insert(k, v);
    assert forall|i: int, j: int| 0 <= i < j < r.len() implies (#[trigger] r[i]).timestamp
        >= (#[trigger] r[j]).timestamp by {
        if i < k {
            assert(r[i] == s[i]);
        } else if i == k {
            assert(r[i] == v);
        } else {
            assert(r[i] == s[i - 1]);
        }
        if j < k {
            assert(r[j] == s[j]);
        } else if j == k {
            assert(r[j] == v);
        } else {
            assert(r[j] == s[j - 1]);
        }
        if j > k && i <= k && k < s.len() {
            assert(s[k].timestamp >= s[j - 1].timestamp);
        }
    }
}

/// Inserting a row with a fresh URI keeps URIs unique, and afterwards a URI
/// is present exactly when it is the new row's or was present before.
pub proof fn lemma_insert_unique(s: Seq<PostV>, v: PostV, k: int)
    requires
        unique_uris(s),
        0 <= k <= s.len(),
        forall|j: int| 0 <= j < s.len() ==> (#[trigger] s[j]).uri != v.uri,
    ensures
        unique_uris(s.insert(k, v)),
        forall|u: Seq<char>| #[trigger] uri_in(s.insert(k, v), u) <==> (u == v.uri || uri_in(s, u)),
{
    s.insert_ensures(k, v);
    let r = s.insert(k, v);
    assert forall|i: int, j: int| 0 <= i < j < r.len() implies (#[trigger] r[i]).uri
        != (#[trigger] r[j]).uri by {
        if i < k {
            assert(r[i] == s[i]);
        } else if i == k {
            assert(r[i] == v);
        } else {
            assert(r[i] == s[i - 1]);
        }
        if j < k {
            assert(r[j] == s[j]);
        } else if j == k {
            assert(r[j] == v);
        } else {
            assert(r[j] == s[j - 1]);
        }
    }
    assert forall|u: Seq<char>| uri_in(r, u) implies (u == v.uri || uri_in(s, u)) by {
        let i = choose|i: int| 0 <= i < r.len() && (#[trigger] r[i]).uri == u;
        if i < k {
            assert(s[i].uri == u);
        } else if i > k {
            assert(s[i - 1].uri == u);
        }
    }
    assert forall|u: Seq<char>| (u == v.uri || uri_in(s, u)) implies uri_in(r, u) by {
        if u == v.uri {
            assert(r[k].uri == u);
        } else {
            let i = choose|i: int| 0 <= i < s.len() && (#[trigger] s[i]).uri == u;
            if i < k {
                assert(r[i].uri == u);
            } else {
                assert(r[i + 1].uri == u);
            }
        }
    }
}

/// The smaller of two integers.
pub open spec fn min_int(a: int, b: int) -> int {
    if a <= b {
        a
    } else {
        b
    }
}

/// Extending a prefix by one element extends what retain keeps by that
/// element when it satisfies pred, and by nothing otherwise.
pub proof fn lemma_retain_take_step<A>(s: Seq<A>, pred: spec_fn(A) -> bool, i: int)
    requires
        0 <= i < s.len(),
    ensures
        retain(s.take(i + 1), pred) == (if pred(s[i]) {
            retain(s.take(i), pred).push(s[i])
        } else {
            retain(s.take(i), pred)
        }),
{
    assert(s.take(i + 1) =~= s.take(i) + seq![s[i]]);
    lemma_retain_distributes(s.take(i), seq![s[i]], pred);
    assert(seq![s[i]].drop_first() =~= Seq::<A>::empty());
    assert(retain(Seq::<A>::empty(), pred) =~= Seq::<A>::empty());
    if pred(s[i]) {
        assert(retain(seq![s[i]], pred) =~= seq![s[i]]);
        assert(retain(s.take(i), pred) + seq![s[i]] =~= retain(s.take(i), pred).push(s[i]));
    } else {
        assert(retain(seq![s[i]], pred) =~= Seq::<A>::empty());
        assert(retain(s.take(i), pred) + Seq::<A>::empty() =~= retain(s.take(i), pred));
    }
}

/// The row a query returns for a stored post: everything but the timestamp.
pub open spec fn to_db_row(p: PostV) -> crate::models::DbPostV {
    crate::models::DbPostV {
        uri: p.uri,
        text: p.text,
        pinned: p.pinned,
        deleted: p.deleted,
        priority: p.priority,
    }
}

/// The window of a page request on the visible rows: skip offset rows, take
/// at most limit.
pub open spec fn page_of(vis: Seq<PostV>, limit: int, offset: int) -> Seq<PostV> {
    let lo = min_int(offset, vis.len() as int);
    let hi = min_int(offset + limit, vis.len() as int);
    vis.subrange(lo, hi)
}

/// Upsert idempotence: re-upserting a row with the same URI, whatever its
/// text, priority or timestamp, leaves exactly the rows a single upsert of
/// the second values would leave.
pub proof fn lemma_upsert_idempotent(s: Seq<PostV>, v1: PostV, v2: PostV)
    requires
        v1.uri == v2.uri,
    ensures
        upsert_seq(upsert_seq(s, v1), v2) == upsert_seq(s, v2),
{
    let u = v1.uri;
    let cleared = remove_uri(s, u);
    let k1 = insertion_point(cleared, v1.timestamp);
    lemma_insertion_point_bounds(cleared, v1.timestamp);
    lemma_remove_uri_membership(s, u);
    let first = upsert_seq(s, v1);
    let a = cleared.subrange(0, k1);
    let b = cleared.subrange(k1, cleared.len() as int);
    assert(first =~= a + seq![v1] + b);
    let pred = |p: PostV| p.uri != u;
    lemma_retain_distributes(a + seq![v1], b, pred);
    lemma_retain_distributes(a, seq![v1], pred);
    assert forall|i: int| 0 <= i < a.len() implies pred(#[trigger] a[i]) by {
        assert(a[i] == cleared[i]);
    }
    assert forall|i: int| 0 <= i < b.len() implies pred(#[trigger] b[i]) by {
        assert(b[i] == cleared[k1 + i]);
    }
    lemma_retain_all_true(a, pred);
    lemma_retain_all_true(b, pred);
    assert(seq![v1].drop_first() =~= Seq::<PostV>::empty());
    assert(retain(Seq::<PostV>::empty(), pred) =~= Seq::<PostV>::empty());
    assert(retain(seq![v1], pred) =~= Seq::<PostV>::empty());
    assert(remove_uri(first, u) =~= a + b);
    assert(a + b =~= cleared);
    assert(remove_uri(first, v2.uri) == remove_uri(s, v2.uri));
}

/// After an upsert exactly one row carries the upserted URI, and that row
/// holds the upserted values.
pub proof fn lemma_upsert_one_row(s: Seq<PostV>, v: PostV)
    ensures
        ({
            let r = upsert_seq(s, v);
            let k = insertion_point(remove_uri(s, v.uri), v.timestamp);
            &&& 0 <= k < r.len()
            &&& r[k] == v
            &&& forall|i: int| 0 <= i < r.len() && i != k ==> (#[trigger] r[i]).uri != v.uri
        }),
{
    let cleared = remove_uri(s, v.uri);
    let k = insertion_point(cleared, v.timestamp);
    lemma_insertion_point_bounds(cleared, v.timestamp);
    lemma_remove_uri_membership(s, v.uri);
    cleared.insert_ensures(k, v);
    let r = upsert_seq(s, v);
    assert forall|i: int| 0 <= i < r.len() && i != k implies (#[trigger] r[i]).uri != v.uri by {
        if i < k {
            assert(r[i] == cleared[i]);
        } else {
            assert(r[i] == cleared[i - 1]);
        }
    }
}

/// Cascade integrity: removing a post leaves no like row referencing its
/// URI, and no post row carrying it.
pub proof fn lemma_cascade_integrity(ps: Seq<PostV>, ls: Seq<LikeV>, uri: Seq<char>)
    ensures
        forall|i: int| 0 <= i < likes_without_post(ls, uri).len() ==> (#[trigger] likes_without_post(
            ls,
            uri,
        )[i]).post_uri != uri,
        !uri_in(remove_uri(ps, uri), uri),
{
    lemma_retain_props(ls, |l: LikeV| l.post_uri != uri);
    lemma_remove_uri_membership(ps, uri);
    if uri_in(remove_uri(ps, uri), uri) {
        let i = choose|i: int|
            0 <= i < remove_uri(ps, uri).len() && (#[trigger] remove_uri(ps, uri)[i]).uri == uri;
        assert(remove_uri(ps, uri)[i].uri != uri);
    }
}

/// Eviction bound: keeping the first rows of a newest-first store keeps at
/// most the cap, so the count of non-deleted rows is within the cap too, and
/// every retained row is at least as recent as every evicted one.
pub proof fn lemma_eviction_bound(s: Seq<PostV>, max: int)
    requires
        sorted_desc(s),
        0 <= max,
    ensures
        ({
            let kept = s.take(min_int(max, s.len() as int));
            &&& kept.len() <= max
            &&& visible_of(kept).len() <= max
            &&& forall|i: int, j: int|
                0 <= i < kept.len() && kept.len() <= j < s.len() ==> (#[trigger] kept[i]).timestamp
                    >= (#[trigger] s[j]).timestamp
        }),
{
    let kept = s.take(min_int(max, s.len() as int));
    lemma_retain_props(kept, |p: PostV| !p.deleted);
    assert forall|i: int, j: int|
        0 <= i < kept.len() && kept.len() <= j < s.len() implies (#[trigger] kept[i]).timestamp
        >= (#[trigger] s[j]).timestamp by {
        assert(kept[i] == s[i]);
        assert(s[i].timestamp >= s[j].timestamp);
    }
}

/// The post and like store: post rows in newest-first timestamp order with
/// unique URIs, and like rows with unique composite keys, each referencing a
/// present post.
pub struct PostStore {
    posts: Vec<StoredPost>,
    likes: Vec<LikeRow>,
}

impl PostStore {
    /// The post rows, newest first.
    pub closed spec fn posts_seq(&self) -> Seq<PostV> {
        self.posts@.map_values(|p: StoredPost| p@)
    }

    /// The like rows, in insertion order.
    pub closed spec fn likes_seq(&self) -> Seq<LikeV> {
        self.likes@.map_values(|l: LikeRow| l@)
    }

    /// The store's invariant.
    pub open spec fn wf(&self) -> bool {
        &&& sorted_desc(self.posts_seq())
        &&& unique_uris(self.posts_seq())
        &&& unique_likes(self.likes_seq())
        &&& likes_reference(self.likes_seq(), self.posts_seq())
    }

    /// The non-deleted post rows, newest first.
    pub open spec fn visible(&self) -> Seq<PostV> {
        visible_of(self.posts_seq())
    }

    /// An empty store.
    pub fn new() -> (r: PostStore)
        ensures
            r.wf(),
            r.posts_seq() == Seq::<PostV>::empty(),
            r.likes_seq() == Seq::<LikeV>::empty(),
    {
        let r = PostStore { posts: Vec::new(), likes: Vec::new() };
        proof {
            assert(r.posts_seq() =~= Seq::<PostV>::empty());
            assert(r.likes_seq() =~= Seq::<LikeV>::empty());
        }
        r
    }

    /// Whether some post row carries this URI.
    fn posts_contain(posts: &Vec<StoredPost>, uri: &String) -> (r: bool)
        ensures
            r == uri_in(posts@.map_values(|p: StoredPost| p@), uri@),
    {
        let ghost ps = posts@.map_values(|p: StoredPost| p@);
        let mut i: usize = 0;
        while i < posts.len()
            invariant
                0 <= i <= posts.len(),
                ps == posts@.map_values(|p: StoredPost| p@),
                forall|j: int| 0 <= j < i ==> (#[trigger] ps[j]).uri != uri@,
            decreases posts.len() - i,
        {
            if posts[i].uri == *uri {
                proof {
                    assert(ps[i as int].uri == uri@);
                }
                return true;
            }
            i += 1;
        }
        false
    }

    /// Removes the post row carrying this URI, if any. Likes are untouched.
    fn remove_post_row(&mut self, uri: &String)
        requires
            unique_uris(old(self).posts_seq()),
        ensures
            final(self).posts_seq() == remove_uri(old(self).posts_seq(), uri@),
            final(self).likes_seq() == old(self).likes_seq(),
    {
        let ghost ps = self.posts_seq();
        let mut i: usize = 0;
        while i < self.posts.len()
            invariant
                0 <= i <= self.posts.len(),
                ps == self.posts@.map_values(|p: StoredPost| p@),
                unique_uris(ps),
                self.likes_seq() == old(self).likes_seq(),
                self == old(self),
                forall|j: int| 0 <= j < i ==> (#[trigger] ps[j]).uri != uri@,
            decreases self.posts.len() - i,
        {
            if self.posts[i].uri == *uri {
                self.posts.remove(i);
                proof {
                    let pred = |p: PostV| p.uri != uri@;
                    assert(ps[i as int].uri == uri@);
                    // every row but the one at i satisfies pred
                    assert forall|j: int| 0 <= j < ps.len() && j != i implies pred(
                        #[trigger] ps[j],
                    ) by {
                        if j > i {
                            assert(ps[i as int].uri != ps[j].uri);
                        }
                    }
                    assert(ps =~= ps.take(i as int) + seq![ps[i as int]] + ps.skip(i as int + 1));
                    lemma_retain_distributes(
                        ps.take(i as int) + seq![ps[i as int]],
                        ps.skip(i as int + 1),
                        pred,
                    );
                    lemma_retain_distributes(ps.take(i as int), seq![ps[i as int]], pred);
                    lemma_retain_all_true(ps.take(i as int), pred);
                    lemma_retain_all_true(ps.skip(i as int + 1), pred);
                    assert(seq![ps[i as int]].drop_first() =~= Seq::<PostV>::empty());
                    assert(retain(Seq::<PostV>::empty(), pred) =~= Seq::<PostV>::empty());
                    assert(retain(seq![ps[i as int]], pred) =~= Seq::<PostV>::empty());
                    assert(retain(ps, pred) =~= ps.take(i as int) + ps.skip(i as int + 1));
                    assert(self.posts_seq() =~= ps.take(i as int) + ps.skip(i as int + 1));
                }
                return ;
            }
            i += 1;
        }
        proof {
            lemma_retain_all_true(ps, |p: PostV| p.uri != uri@);
        }
    }

    /// Upserts a post: one row per URI, pinned and deleted clear, placed at
    /// its timestamp's position in the newest-first order. Likes are
    /// untouched. Idempotent by URI: a second insert replaces the first row.
    pub fn insert_or_replace(&mut self, uri: String, text: String, priority: i64, timestamp: i64)
        requires
            old(self).wf(),
        ensures
            final(self).wf(),
            final(self).posts_seq() == upsert_seq(
                old(self).posts_seq(),
                PostV {
                    uri: uri@,
                    text: text@,
                    pinned: false,
                    deleted: false,
                    priority: priority as int,
                    timestamp: timestamp as int,
                },
            ),
            final(self).likes_seq() == old(self).likes_seq(),
    {
        let ghost old_ps = self.posts_seq();
        let ghost v = PostV {
            uri: uri@,
            text: text@,
            pinned: false,
            deleted: false,
            priority: priority as int,
            timestamp: timestamp as int,
        };
        self.remove_post_row(&uri);
        let ghost cleared = self.posts_seq();
        proof {
            lemma_remove_uri_sorted_unique(old_ps, uri@);
            lemma_remove_uri_membership(old_ps, uri@);
        }
        let mut k: usize = 0;
        while k < self.posts.len() && self.posts[k].timestamp >= timestamp
            invariant
                0 <= k <= self.posts.len(),
                cleared == self.posts@.map_values(|p: StoredPost| p@),
                forall|j: int| 0 <= j < k ==> (#[trigger] cleared[j]).timestamp >= timestamp as int,
            decreases self.posts.len() - k,
        {
            proof {
                assert(cleared[k as int].timestamp == self.posts@[k as int]@.timestamp);
            }
            k += 1;
        }
        proof {
            lemma_insertion_point_charac(cleared, timestamp as int, k as int);
        }
        let ghost likes0 = self.likes_seq();
        let ghost pv = self.posts@;
        self.posts.insert(
            k,
            StoredPost { uri, text, pinned: false, deleted: false, priority, timestamp },
        );
        proof {
            let newps = cleared.insert(k as int, v);
            pv.insert_ensures(k as int, self.posts@[k as int]);
            cleared.insert_ensures(k as int, v);
            assert(self.posts@ == pv.insert(k as int, self.posts@[k as int]));
            assert(self.posts@[k as int]@ == v);
            assert forall|m: int| 0 <= m < newps.len() implies self.posts_seq()[m] == newps[m] by {
                assert(self.posts_seq()[m] == self.posts@[m]@);
                if m < k as int {
                    assert(self.posts@[m] == pv[m]);
                    assert(newps[m] == cleared[m]);
                } else if m == k as int {
                } else {
                    assert(self.posts@[m] == pv[m - 1]);
                    assert(newps[m] == cleared[m - 1]);
                }
            }
            assert(self.posts_seq() =~= newps);
            lemma_insert_sorted(cleared, v, k as int);
            lemma_insert_unique(cleared, v, k as int);
            assert(self.likes_seq() == likes0);
            assert forall|i: int| 0 <= i < self.likes_seq().len() implies uri_in(
                self.posts_seq(),
                (#[trigger] self.likes_seq()[i]).post_uri,
            ) by {
                assert(self.likes_seq()[i] == old(self).likes_seq()[i]);
                let pu = old(self).likes_seq()[i].post_uri;
                assert(uri_in(old_ps, pu));
                if pu != uri@ {
                    assert(uri_in(cleared, pu));
                }
                assert(uri_in(cleared.insert(k as int, v), pu));
            }
        }
    }

    /// Removes the post carrying this URI and every like referencing it.
    /// A no-op when the URI is absent.
    pub fn delete(&mut self, uri: &String)
        requires
            old(self).wf(),
        ensures
            final(self).wf(),
            final(self).posts_seq() == remove_uri(old(self).posts_seq(), uri@),
            final(self).likes_seq() == likes_without_post(old(self).likes_seq(), uri@),
    {
        let ghost old_ps = self.posts_seq();
        let ghost ls0 = self.likes_seq();
        self.remove_post_row(uri);
        proof {
            assert(self.likes_seq().skip(0) =~= self.likes_seq());
            assert(self.likes_seq().take(0) =~= Seq::<LikeV>::empty());
            assert(Seq::<LikeV>::empty() + likes_without_post(ls0, uri@) =~= likes_without_post(
                ls0,
                uri@,
            ));
        }
        let mut i: usize = 0;
        while i < self.likes.len()
            invariant
                0 <= i <= self.likes.len(),
                self.posts_seq() == remove_uri(old(self).posts_seq(), uri@),
                ls0 == old(self).likes_seq(),
                forall|j: int| 0 <= j < i ==> (#[trigger] self.likes_seq()[j]).post_uri != uri@,
                likes_without_post(ls0, uri@) == self.likes_seq().take(i as int)
                    + likes_without_post(self.likes_seq().skip(i as int), uri@),
            decreases self.likes.len() - i,
        {
            let ghost cur = self.likes_seq();
            proof {
                assert(cur.skip(i as int)[0] == cur[i as int]);
                assert(cur.skip(i as int).drop_first() =~= cur.skip(i as int + 1));
                assert(cur[i as int] == self.likes@[i as int]@);
            }
            if self.likes[i].post_uri == *uri {
                self.likes.remove(i);
                proof {
                    let newls = self.likes_seq();
                    assert(newls =~= cur.take(i as int) + cur.skip(i as int + 1));
                    assert(newls.take(i as int) =~= cur.take(i as int));
                    assert(newls.skip(i as int) =~= cur.skip(i as int + 1));
                }
            } else {
                proof {
                    assert(cur[i as int].post_uri != uri@);
                    assert(cur.take(i as int + 1) =~= cur.take(i as int) + seq![cur[i as int]]);
                    assert(cur.take(i as int) + (seq![cur[i as int]] + likes_without_post(
                        cur.skip(i as int + 1),
                        uri@,
                    )) =~= cur.take(i as int + 1) + likes_without_post(cur.skip(i as int + 1), uri@));
                }
                i += 1;
            }
        }
        proof {
            let cur = self.likes_seq();
            assert(cur.skip(i as int) =~= Seq::<LikeV>::empty());
            assert(likes_without_post(Seq::<LikeV>::empty(), uri@) =~= Seq::<LikeV>::empty());
            assert(cur.take(i as int) =~= cur);
            assert(cur =~= likes_without_post(ls0, uri@));
            lemma_remove_uri_sorted_unique(old_ps, uri@);
            lemma_retain_distinct(ls0, |l: LikeV| l.post_uri != uri@);
            lemma_retain_props(ls0, |l: LikeV| l.post_uri != uri@);
            lemma_remove_uri_membership(old_ps, uri@);
            assert forall|m: int| 0 <= m < cur.len() implies uri_in(
                self.posts_seq(),
                (#[trigger] cur[m]).post_uri,
            ) by {
                assert(ls0.contains(cur[m]));
                let j = choose|j: int| 0 <= j < ls0.len() && ls0[j] == cur[m];
                assert(uri_in(old_ps, ls0[j].post_uri));
                assert(cur[m].post_uri != uri@);
            }
        }
    }

    /// Inserts a like for a post the store holds; a silent no-op when the
    /// post is absent or the (post URI, like URI) pair is already present.
    pub fn add_like(&mut self, post_uri: String, like_uri: String)
        requires
            old(self).wf(),
        ensures
            final(self).wf(),
            final(self).posts_seq() == old(self).posts_seq(),
            final(self).likes_seq() == (if uri_in(old(self).posts_seq(), post_uri@) && !like_in(
                old(self).likes_seq(),
                LikeV { post_uri: post_uri@, like_uri: like_uri@ },
            ) {
                old(self).likes_seq().push(LikeV { post_uri: post_uri@, like_uri: like_uri@ })
            } else {
                old(self).likes_seq()
            }),
    {
        let ghost lv = LikeV { post_uri: post_uri@, like_uri: like_uri@ };
        let ghost ls0 = self.likes_seq();
        if !Self::posts_contain(&self.posts, &post_uri) {
            return ;
        }
        let mut i: usize = 0;
        while i < self.likes.len()
            invariant
                0 <= i <= self.likes.len(),
                self == old(self),
                old(self).wf(),
                lv == (LikeV { post_uri: post_uri@, like_uri: like_uri@ }),
                ls0 == self.likes@.map_values(|l: LikeRow| l@),
                ls0 == old(self).likes_seq(),
                uri_in(old(self).posts_seq(), post_uri@),
                forall|j: int| 0 <= j < i ==> #[trigger] ls0[j] != lv,
            decreases self.likes.len() - i,
        {
            proof {
                assert(ls0[i as int] == self.likes@[i as int]@);
            }
            if self.likes[i].post_uri == post_uri && self.likes[i].like_uri == like_uri {
                proof {
                    assert(ls0[i as int] =~= lv);
                    assert(like_in(ls0, lv));
                }
                return ;
            }
            i += 1;
        }
        proof {
            assert(!like_in(ls0, lv));
        }
        self.likes.push(LikeRow { post_uri, like_uri });
        proof {
            assert(self.likes_seq() =~= ls0.push(lv));
            let newls = self.likes_seq();
            assert forall|a: int, b: int| 0 <= a < b < newls.len() implies #[trigger] newls[a]
                != #[trigger] newls[b] by {
                if b == newls.len() - 1 {
                    assert(newls[a] == ls0[a]);
                }
            }
            assert forall|m: int| 0 <= m < newls.len() implies uri_in(
                self.posts_seq(),
                (#[trigger] newls[m]).post_uri,
            ) by {
                if m < newls.len() - 1 {
                    assert(newls[m] == ls0[m]);
                    assert(uri_in(old(self).posts_seq(), ls0[m].post_uri));
                }
            }
        }
    }

    /// Removes every like keyed by this like URI. A no-op when none is.
    pub fn remove_like(&mut self, like_uri: &String)
        requires
            old(self).wf(),
        ensures
            final(self).wf(),
            final(self).posts_seq() == old(self).posts_seq(),
            final(self).likes_seq() == likes_without_like(old(self).likes_seq(), like_uri@),
    {
        let ghost ls0 = self.likes_seq();
        proof {
            assert(self.likes_seq().skip(0) =~= self.likes_seq());
            assert(self.likes_seq().take(0) =~= Seq::<LikeV>::empty());
            assert(Seq::<LikeV>::empty() + likes_without_like(ls0, like_uri@) =~= likes_without_like(
                ls0,
                like_uri@,
            ));
        }
        let mut i: usize = 0;
        while i < self.likes.len()
            invariant
                0 <= i <= self.likes.len(),
                self.posts_seq() == old(self).posts_seq(),
                ls0 == old(self).likes_seq(),
                forall|j: int| 0 <= j < i ==> (#[trigger] self.likes_seq()[j]).like_uri != like_uri@,
                likes_without_like(ls0, like_uri@) == self.likes_seq().take(i as int)
                    + likes_without_like(self.likes_seq().skip(i as int), like_uri@),
            decreases self.likes.len() - i,
        {
            let ghost cur = self.likes_seq();
            proof {
                assert(cur.skip(i as int)[0] == cur[i as int]);
                assert(cur.skip(i as int).drop_first() =~= cur.skip(i as int + 1));
                assert(cur[i as int] == self.likes@[i as int]@);
            }
            if self.likes[i].like_uri == *like_uri {
                self.likes.remove(i);
                proof {
                    let newls = self.likes_seq();
                    assert(newls =~= cur.take(i as int) + cur.skip(i as int + 1));
                    assert(newls.take(i as int) =~= cur.take(i as int));
                    assert(newls.skip(i as int) =~= cur.skip(i as int + 1));
                }
            } else {
                proof {
                    assert(cur[i as int].like_uri != like_uri@);
                    assert(cur.take(i as int + 1) =~= cur.take(i as int) + seq![cur[i as int]]);
                    assert(cur.take(i as int) + (seq![cur[i as int]] + likes_without_like(
                        cur.skip(i as int + 1),
                        like_uri@,
                    )) =~= cur.take(i as int + 1) + likes_without_like(
                        cur.skip(i as int + 1),
                        like_uri@,
                    ));
                }
                i += 1;
            }
        }
        proof {
            let cur = self.likes_seq();
            assert(cur.skip(i as int) =~= Seq::<LikeV>::empty());
            assert(likes_without_like(Seq::<LikeV>::empty(), like_uri@) =~= Seq::<LikeV>::empty());
            assert(cur.take(i as int) =~= cur);
            assert(cur =~= likes_without_like(ls0, like_uri@));
            lemma_retain_distinct(ls0, |l: LikeV| l.like_uri != like_uri@);
            lemma_retain_props(ls0, |l: LikeV| l.like_uri != like_uri@);
            assert forall|m: int| 0 <= m < cur.len() implies uri_in(
                self.posts_seq(),
                (#[trigger] cur[m]).post_uri,
            ) by {
                assert(ls0.contains(cur[m]));
                let j = choose|j: int| 0 <= j < ls0.len() && ls0[j] == cur[m];
                assert(uri_in(old(self).posts_seq(), ls0[j].post_uri));
            }
        }
    }

    /// Both tables are held in vectors, so their lengths fit a usize, and
    /// the visible rows are among the stored rows.
    pub proof fn lemma_len_bounds(&self)
        ensures
            self.posts_seq().len() <= usize::MAX as int,
            self.visible().len() <= self.posts_seq().len(),
    {
        broadcast use vstd::std_specs::vec::axiom_spec_len;

        assert(vstd::std_specs::vec::spec_vec_len(&self.posts) == self.posts@.len());
        lemma_retain_props(self.posts_seq(), |p: PostV| !p.deleted);
    }

    /// The number of like rows.
    pub fn like_count(&self) -> (r: u64)
        ensures
            r as int == self.likes_seq().len(),
    {
        proof {
            assert(self.likes_seq().len() == self.likes@.len());
        }
        self.likes.len() as u64
    }

    /// The number of non-deleted posts.
    pub fn count(&self) -> (r: u64)
        ensures
            r as int == self.visible().len(),
    {
        let ghost ps = self.posts_seq();
        let mut c: usize = 0;
        let mut i: usize = 0;
        proof {
            assert(ps.take(0) =~= Seq::<PostV>::empty());
            assert(visible_of(Seq::<PostV>::empty()) =~= Seq::<PostV>::empty());
        }
        while i < self.posts.len()
            invariant
                0 <= i <= self.posts.len(),
                ps == self.posts@.map_values(|p: StoredPost| p@),
                c <= i,
                c as int == visible_of(ps.take(i as int)).len(),
            decreases self.posts.len() - i,
        {
            proof {
                assert(ps[i as int] == self.posts@[i as int]@);
                lemma_retain_take_step(ps, |p: PostV| !p.deleted, i as int);
            }
            if !self.posts[i].deleted {
                c += 1;
            }
            i += 1;
        }
        proof {
            assert(ps.take(i as int) =~= ps);
        }
        c as u64
    }

    /// The page of non-deleted posts, newest first: skip offset rows, return
    /// at most limit rows, each without its timestamp.
    pub fn query_page(&self, limit: usize, offset: usize) -> (r: Vec<DbPost>)
        ensures
            r@.map_values(|d: DbPost| d@) == page_of(
                self.visible(),
                limit as int,
                offset as int,
            ).map_values(|p: PostV| to_db_row(p)),
    {
        let ghost ps = self.posts_seq();
        let mut out: Vec<DbPost> = Vec::new();
        let mut seen: usize = 0;
        let mut i: usize = 0;
        proof {
            assert(ps.take(0) =~= Seq::<PostV>::empty());
            assert(visible_of(Seq::<PostV>::empty()) =~= Seq::<PostV>::empty());
            assert(out@.map_values(|d: DbPost| d@) =~= page_of(
                visible_of(ps.take(0)),
                limit as int,
                offset as int,
            ).map_values(|p: PostV| to_db_row(p)));
        }
        while i < self.posts.len()
            invariant
                0 <= i <= self.posts.len(),
                ps == self.posts@.map_values(|p: StoredPost| p@),
                seen <= i,
                seen as int == visible_of(ps.take(i as int)).len(),
                out@.map_values(|d: DbPost| d@) == page_of(
                    visible_of(ps.take(i as int)),
                    limit as int,
                    offset as int,
                ).map_values(|p: PostV| to_db_row(p)),
            decreases self.posts.len() - i,
        {
            let ghost visb = visible_of(ps.take(i as int));
            proof {
                assert(ps[i as int] == self.posts@[i as int]@);
                lemma_retain_take_step(ps, |p: PostV| !p.deleted, i as int);
            }
            if !self.posts[i].deleted {
                let ghost visa = visible_of(ps.take(i as int + 1));
                proof {
                    assert(visa == visb.push(ps[i as int]));
                }
                if seen >= offset && seen - offset < limit {
                    let ghost out_before = out@;
                    let p = &self.posts[i];
                    out.push(
                        DbPost {
                            uri: p.uri.clone(),
                            text: p.text.clone(),
                            pinned: p.pinned,
                            deleted: p.deleted,
                            priority: p.priority,
                        },
                    );
                    proof {
                        let wa = page_of(visa, limit as int, offset as int);
                        let wb = page_of(visb, limit as int, offset as int);
                        assert(visa.len() == seen + 1);
                        assert forall|m: int| 0 <= m < wa.len() implies wa[m] == wb.push(
                            ps[i as int],
                        )[m] by {
                            assert(wa[m] == visa[offset + m]);
                            if offset + m < seen {
                                assert(visa[offset + m] == visb[offset + m]);
                                assert(wb[m] == visb[offset + m]);
                            } else {
                                assert(visa[offset + m] == ps[i as int]);
                            }
                        }
                        assert(wa =~= wb.push(ps[i as int]));
                        assert(self.posts@[i as int]@ == ps[i as int]);
                        assert(out@ == out_before.push(
                            DbPost {
                                uri: self.posts@[i as int].uri,
                                text: self.posts@[i as int].text,
                                pinned: self.posts@[i as int].pinned,
                                deleted: self.posts@[i as int].deleted,
                                priority: self.posts@[i as int].priority,
                            },
                        ));
                        assert(out@.len() == out_before.len() + 1);
                        assert(wa.len() == wb.len() + 1);
                        assert(out_before.map_values(|d: DbPost| d@).len() == out_before.len());
                        assert(wb.map_values(|p2: PostV| to_db_row(p2)).len() == wb.len());
                        assert(out_before.len() == wb.len());
                        assert forall|m: int| 0 <= m < out@.len() implies out@.map_values(
                            |d: DbPost| d@,
                        )[m] == wa.map_values(|p2: PostV| to_db_row(p2))[m] && #[trigger] out@[m]
                            == out@[m] by {
                            assert(out@.map_values(|d: DbPost| d@)[m] == out@[m]@);
                            assert(wa.map_values(|p2: PostV| to_db_row(p2))[m] == to_db_row(wa[m]));
                            if m < out_before.len() {
                                assert(out@[m] == out_before[m]);
                                assert(wa[m] == wb[m]);
                                assert(out_before.map_values(|d: DbPost| d@)[m] == out_before[m]@);
                                assert(wb.map_values(|p2: PostV| to_db_row(p2))[m] == to_db_row(
                                    wb[m],
                                ));
                                assert(out_before.map_values(|d: DbPost| d@)[m] == wb.map_values(
                                    |p2: PostV| to_db_row(p2),
                                )[m]);
                            } else {
                                assert(m == out_before.len());
                                assert(wa[m] == ps[i as int]);
                                assert(out@[m]@ =~= to_db_row(ps[i as int]));
                            }
                        }
                        assert(out@.map_values(|d: DbPost| d@) =~= page_of(
                            visa,
                            limit as int,
                            offset as int,
                        ).map_values(|p2: PostV| to_db_row(p2)));
                    }
                } else {
                    proof {
                        assert(page_of(visa, limit as int, offset as int) =~= page_of(
                            visb,
                            limit as int,
                            offset as int,
                        ));
                    }
                }
                seen += 1;
            }
            i += 1;
        }
        proof {
            assert(ps.take(i as int) =~= ps);
        }
        out
    }

    /// Enforces the retention cap: keeps the max_posts most recent rows (the
    /// store is newest-first, so the leading rows), removes the rest, and
    /// cascades removal of likes whose post is gone. Returns how many rows
    /// were evicted.
    pub fn evict(&mut self, max_posts: usize) -> (evicted: usize)
        requires
            old(self).wf(),
        ensures
            final(self).wf(),
            final(self).posts_seq() == old(self).posts_seq().take(
                min_int(max_posts as int, old(self).posts_seq().len() as int),
            ),
            final(self).likes_seq() == likes_referencing(
                old(self).likes_seq(),
                final(self).posts_seq(),
            ),
            evicted as int == old(self).posts_seq().len() - final(self).posts_seq().len(),
    {
        let ghost old_ps = self.posts_seq();
        let ghost ls0 = self.likes_seq();
        let before = self.posts.len();
        self.posts.truncate(max_posts);
        let evicted = before - self.posts.len();
        let ghost new_ps = self.posts_seq();
        proof {
            if max_posts <= before {
                assert(self.posts@ == old(self).posts@.subrange(0, max_posts as int));
                assert(new_ps =~= old_ps.take(min_int(max_posts as int, old_ps.len() as int)));
            } else {
                assert(new_ps =~= old_ps.take(min_int(max_posts as int, old_ps.len() as int)));
            }
            assert forall|a: int, b: int| 0 <= a < b < new_ps.len() implies (
            #[trigger] new_ps[a]).timestamp >= (#[trigger] new_ps[b]).timestamp && new_ps[a].uri
                != new_ps[b].uri by {
                assert(old_ps[a].timestamp >= old_ps[b].timestamp);
                assert(old_ps[a].uri != old_ps[b].uri);
            }
            assert(self.likes_seq().skip(0) =~= self.likes_seq());
            assert(self.likes_seq().take(0) =~= Seq::<LikeV>::empty());
            assert(Seq::<LikeV>::empty() + likes_referencing(ls0, new_ps) =~= likes_referencing(
                ls0,
                new_ps,
            ));
        }
        let mut i: usize = 0;
        while i < self.likes.len()
            invariant
                0 <= i <= self.likes.len(),
                self.posts_seq() == new_ps,
                ls0 == old(self).likes_seq(),
                forall|j: int| 0 <= j < i ==> uri_in(new_ps, (#[trigger] self.likes_seq()[j]).post_uri),
                likes_referencing(ls0, new_ps) == self.likes_seq().take(i as int)
                    + likes_referencing(self.likes_seq().skip(i as int), new_ps),
            decreases self.likes.len() - i,
        {
            let ghost cur = self.likes_seq();
            proof {
                assert(cur.skip(i as int)[0] == cur[i as int]);
                assert(cur.skip(i as int).drop_first() =~= cur.skip(i as int + 1));
                assert(cur[i as int] == self.likes@[i as int]@);
            }
            let referenced = Self::posts_contain(&self.posts, &self.likes[i].post_uri);
            if !referenced {
                self.likes.remove(i);
                proof {
                    let newls = self.likes_seq();
                    assert(newls =~= cur.take(i as int) + cur.skip(i as int + 1));
                    assert(newls.take(i as int) =~= cur.take(i as int));
                    assert(newls.skip(i as int) =~= cur.skip(i as int + 1));
                }
            } else {
                proof {
                    assert(uri_in(new_ps, cur[i as int].post_uri));
                    assert(cur.take(i as int + 1) =~= cur.take(i as int) + seq![cur[i as int]]);
                    assert(cur.take(i as int) + (seq![cur[i as int]] + likes_referencing(
                        cur.skip(i as int + 1),
                        new_ps,
                    )) =~= cur.take(i as int + 1) + likes_referencing(
                        cur.skip(i as int + 1),
                        new_ps,
                    ));
                }
                i += 1;
            }
        }
        proof {
            let cur = self.likes_seq();
            assert(cur.skip(i as int) =~= Seq::<LikeV>::empty());
            assert(likes_referencing(Seq::<LikeV>::empty(), new_ps) =~= Seq::<LikeV>::empty());
            assert(cur.take(i as int) =~= cur);
            assert(cur =~= likes_referencing(ls0, new_ps));
            lemma_retain_distinct(ls0, |l: LikeV| uri_in(new_ps, l.post_uri));
            lemma_retain_props(ls0, |l: LikeV| uri_in(new_ps, l.post_uri));
        }
        evicted
    }
}

} // verus!

