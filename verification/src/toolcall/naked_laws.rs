//! A bare call amid text is read back, and the text around it stays.

use crate::toolcall::fence_laws::lemma_not_in_tail;
use crate::toolcall::laws::{lemma_without_blocks, without_blocks};
use crate::toolcall::parse::{
    all_objects, found_calls, lemma_all_objects, naked_calls, naked_text_call, object_text, opt_seq,
    CallView,
};
use crate::toolcall::round_trip::{lemma_cut_kept, lemma_later_kept};
use crate::toolcall::scan::{lemma_scan_end, object_end, object_end_ignores_what_follows};
use crate::toolcall::shift::{later_objects, lemma_later_scan};
use crate::toolcall::strip::{
    call_ranges, covered, kept, lemma_encode_concat, lemma_kept_free, lemma_kept_same,
    naked_ranges, stripped,
};
use vstd::prelude::*;
use vstd::utf8::*;

verus! {

/// The objects of a text do not depend on what stands before.
proof fn lemma_later_all_objects(p: Seq<u8>, r: Seq<u8>, k: int)
    requires
        0 <= k,
    ensures
        all_objects(p + r, p.len() + k) == later_objects(all_objects(r, k), p.len() as int),
    decreases r.len() - k,
{
    let b = p + r;
    let n = p.len() as int;
    let here = all_objects(r, k);
    let there = all_objects(b, n + k);
    if k < r.len() {
        assert(b[n + k] == r[k]);
        lemma_later_scan(p, r, k, 0, false, false);
        lemma_scan_end(r, k, 0, false, false);
        match object_end(r, k) {
            Some(e) => {
                lemma_later_all_objects(p, r, e + 1);
                assert(n + e + 1 == n + (e + 1));
                assert(there =~= seq![(k + n, e + n)] + later_objects(all_objects(r, e + 1), n));
                assert(there =~= later_objects(here, n));
            },
            None => {
                lemma_later_all_objects(p, r, k + 1);
                assert(n + k + 1 == n + (k + 1));
            },
        }
    } else {
        assert(there =~= later_objects(here, n));
    }
}

/// Text without a brace is passed over.
proof fn lemma_skip_text(b: Seq<u8>, i: int, a: int)
    requires
        0 <= i <= a <= b.len(),
        forall|k: int| i <= k < a ==> #[trigger] b[k] != 0x7b,
    ensures
        all_objects(b, i) == all_objects(b, a),
    decreases a - i,
{
    if i < a {
        lemma_skip_text(b, i + 1, a);
    }
}

/// The objects of the whole: the one amid the text and those of the rest.
proof fn lemma_whole_objects(x: Seq<u8>, e: Seq<u8>, r: Seq<u8>)
    requires
        forall|k: int| 0 <= k < x.len() ==> #[trigger] x[k] != 0x7b,
        object_end(e, 0) == Some(e.len() - 1),
    ensures
        all_objects(x + e + r, 0) == seq![(x.len() as int, x.len() + e.len() - 1)]
            + later_objects(all_objects(r, 0), (x + e).len() as int),
{
    let b = x + e + r;
    let a = x.len() as int;
    assert forall|k: int| 0 <= k < a implies #[trigger] b[k] != 0x7b by {
        assert(b[k] == x[k]);
    }
    lemma_skip_text(b, 0, a);
    lemma_scan_end(e, 0, 0, false, false);
    object_end_ignores_what_follows(e, r, 0, 0, false, false);
    lemma_later_scan(x, e + r, 0, 0, false, false);
    assert(b =~= x + (e + r));
    assert(b[a] == e[0]);
    assert(object_end(b, a) == Some(a + e.len() - 1));
    lemma_later_all_objects(x + e, r, 0);
}

/// The bare calls of the whole: the one amid the text and those of the rest.
proof fn lemma_whole_naked(
    x: Seq<u8>,
    e: Seq<u8>,
    r: Seq<u8>,
    objects: Seq<(int, int)>,
    registry: Map<Seq<char>, Seq<char>>,
)
    requires
        e.len() > 0,
        forall|k: int|
            #![trigger objects[k]]
            0 <= k < objects.len() ==> 0 <= objects[k].0 <= objects[k].1 < r.len(),
    ensures
        ({
            let b = x + e + r;
            let n = (x + e).len() as int;
            let whole = seq![(x.len() as int, n - 1)] + later_objects(objects, n);
            let own = naked_text_call(e, registry);
            &&& naked_calls(b, whole, registry) == opt_seq(own) + naked_calls(
                r,
                objects,
                registry,
            )
            &&& naked_ranges(b, whole, registry) == (if own is Some {
                seq![(x.len() as int, n)]
            } else {
                Seq::empty()
            }) + later_objects(naked_ranges(r, objects, registry), n)
        }),
    decreases objects.len(),
{
    let b = x + e + r;
    let n = (x + e).len() as int;
    let a = x.len() as int;
    let whole = seq![(a, n - 1)] + later_objects(objects, n);
    let own = naked_text_call(e, registry);
    let first = if own is Some {
        seq![(a, n)]
    } else {
        Seq::empty()
    };
    if objects.len() == 0 {
        assert(whole =~= seq![(a, n - 1)]);
        assert(whole.drop_last() =~= Seq::<(int, int)>::empty());
        assert(object_text(b, (a, n - 1)) =~= e);
        assert(naked_calls(b, whole.drop_last(), registry) == Seq::<CallView>::empty());
        assert(naked_calls(b, whole, registry) =~= opt_seq(own) + naked_calls(
            r,
            objects,
            registry,
        ));
        assert(naked_ranges(b, whole.drop_last(), registry) == Seq::<(int, int)>::empty());
        assert(naked_ranges(b, whole, registry) =~= first + later_objects(
            naked_ranges(r, objects, registry),
            n,
        ));
    } else {
        let head = objects.drop_last();
        assert forall|k: int| #![trigger head[k]] 0 <= k < head.len() implies 0 <= head[k].0
            <= head[k].1 < r.len() by {
            assert(head[k] == objects[k]);
        }
        lemma_whole_naked(x, e, r, head, registry);
        assert(whole.drop_last() =~= seq![(a, n - 1)] + later_objects(head, n));
        let o = objects[objects.len() - 1];
        assert(whole.last() == (o.0 + n, o.1 + n));
        assert(object_text(b, (o.0 + n, o.1 + n)) =~= object_text(r, o));
        let more = opt_seq(naked_text_call(object_text(r, o), registry));
        assert(naked_calls(b, whole, registry) =~= opt_seq(own) + (naked_calls(
            r,
            head,
            registry,
        ) + more));
        let rest = naked_ranges(r, head, registry);
        if naked_text_call(object_text(r, o), registry) is Some {
            assert(later_objects(rest.push((o.0, o.1 + 1)), n) =~= later_objects(rest, n).push(
                (o.0 + n, o.1 + 1 + n),
            ));
            assert(naked_ranges(b, whole, registry) =~= first + later_objects(
                rest.push((o.0, o.1 + 1)),
                n,
            ));
        }
    }
}

/// The places of bare calls are places in the text.
proof fn lemma_ranges_from(
    r: Seq<u8>,
    objects: Seq<(int, int)>,
    registry: Map<Seq<char>, Seq<char>>,
)
    requires
        forall|k: int|
            #![trigger objects[k]]
            0 <= k < objects.len() ==> 0 <= objects[k].0 <= objects[k].1 < r.len(),
    ensures
        forall|k: int|
            0 <= k < naked_ranges(r, objects, registry).len() ==> (#[trigger] naked_ranges(
                r,
                objects,
                registry,
            )[k]).0 >= 0,
    decreases objects.len(),
{
    if objects.len() > 0 {
        let head = objects.drop_last();
        assert forall|k: int| #![trigger head[k]] 0 <= k < head.len() implies 0 <= head[k].0
            <= head[k].1 < r.len() by {
            assert(head[k] == objects[k]);
        }
        lemma_ranges_from(r, head, registry);
        let all = naked_ranges(r, objects, registry);
        let rest = naked_ranges(r, head, registry);
        assert(objects.last() == objects[objects.len() - 1]);
        assert forall|k: int| 0 <= k < all.len() implies (#[trigger] all[k]).0 >= 0 by {
            if k < rest.len() {
                assert(all[k] == rest[k]);
            }
        }
    }
}

/// Where nothing is taken out of the beginning, all of it stays, and behind it what is left of
/// the rest.
proof fn lemma_uncut_kept(p0: Seq<u8>, r: Seq<u8>, inner: Seq<(int, int)>)
    requires
        forall|k: int| 0 <= k < inner.len() ==> (#[trigger] inner[k]).0 >= 0,
    ensures
        kept(p0 + r, later_objects(inner, p0.len() as int), (p0 + r).len() as int) == p0 + kept(
            r,
            inner,
            r.len() as int,
        ),
{
    let b = p0 + r;
    let n = p0.len() as int;
    let later = later_objects(inner, n);
    let ranges = seq![(0int, 0int)] + later;
    assert forall|p: int| covered(ranges, p) <==> covered(later, p) by {
        if covered(ranges, p) {
            let k = choose|k: int|
                0 <= k < ranges.len() && (#[trigger] ranges[k]).0 <= p < ranges[k].1;
            assert(later[k - 1].0 <= p < later[k - 1].1);
        }
        if covered(later, p) {
            let k = choose|k: int|
                0 <= k < later.len() && (#[trigger] later[k]).0 <= p < later[k].1;
            assert(ranges[k + 1].0 <= p < ranges[k + 1].1);
        }
    }
    lemma_kept_same(b, ranges, later, b.len() as int);
    assert forall|p: int| 0 <= p < n implies !covered(ranges, p) by {
        if covered(ranges, p) {
            let k = choose|k: int|
                0 <= k < ranges.len() && (#[trigger] ranges[k]).0 <= p < ranges[k].1;
            assert(ranges[k] == (inner[k - 1].0 + n, inner[k - 1].1 + n));
        }
    }
    lemma_kept_free(b, ranges, 0, n);
    assert(b.subrange(0, n) =~= p0);
    assert(kept(b, ranges, 0) =~= Seq::empty());
    assert(kept(b, ranges, n) =~= p0);
    lemma_later_kept(p0, r, ranges, inner, p0, r.len() as int);
}

/// A bare object amid text: a call gives its call and is taken out, another object stays; the
/// text before it stays, and behind it come the calls of the rest and what is left of it.
pub proof fn naked_calls_amid_text(
    pre: Seq<char>,
    json: Seq<char>,
    rest: Seq<char>,
    registry: Map<Seq<char>, Seq<char>>,
)
    requires
        registry != Map::<Seq<char>, Seq<char>>::empty(),
        without_blocks(encode_utf8(pre + json + rest)),
        forall|k: int| 0 <= k < encode_utf8(pre).len() ==> #[trigger] encode_utf8(pre)[k] != 0x7b,
        object_end(encode_utf8(json), 0) == Some(encode_utf8(json).len() - 1),
    ensures
        found_calls(encode_utf8(pre + json + rest), registry) == opt_seq(
            naked_text_call(encode_utf8(json), registry),
        ) + found_calls(encode_utf8(rest), registry),
        stripped(encode_utf8(pre + json + rest), registry) == encode_utf8(pre) + (
        if naked_text_call(encode_utf8(json), registry) is Some {
            Seq::empty()
        } else {
            encode_utf8(json)
        }) + stripped(encode_utf8(rest), registry),
{
    let x = encode_utf8(pre);
    let e = encode_utf8(json);
    let r = encode_utf8(rest);
    lemma_encode_concat(pre, json);
    lemma_encode_concat(pre + json, rest);
    encode_utf8_valid_utf8(pre + json + rest);
    encode_utf8_valid_utf8(rest);
    lemma_naked_whole(x, e, r, registry);
}

proof fn lemma_naked_whole(
    x: Seq<u8>,
    e: Seq<u8>,
    r: Seq<u8>,
    registry: Map<Seq<char>, Seq<char>>,
)
    requires
        registry != Map::<Seq<char>, Seq<char>>::empty(),
        valid_utf8(x + e + r),
        valid_utf8(r),
        without_blocks(x + e + r),
        forall|k: int| 0 <= k < x.len() ==> #[trigger] x[k] != 0x7b,
        object_end(e, 0) == Some(e.len() - 1),
    ensures
        found_calls(x + e + r, registry) == opt_seq(naked_text_call(e, registry)) + found_calls(
            r,
            registry,
        ),
        stripped(x + e + r, registry) == x + (if naked_text_call(e, registry) is Some {
            Seq::empty()
        } else {
            e
        }) + stripped(r, registry),
{
    let p0 = x + e;
    let b = p0 + r;
    let n = p0.len() as int;
    lemma_not_in_tail(p0, r, encode_utf8("<tool_call>"@));
    lemma_not_in_tail(p0, r, encode_utf8("```"@));
    lemma_not_in_tail(p0, r, encode_utf8("<function"@));
    lemma_without_blocks(b);
    lemma_without_blocks(r);
    lemma_scan_end(e, 0, 0, false, false);
    let objects = all_objects(r, 0);
    lemma_all_objects(r, 0);
    lemma_whole_objects(x, e, r);
    lemma_whole_naked(x, e, r, objects, registry);
    lemma_ranges_from(r, objects, registry);
    let inner = naked_ranges(r, objects, registry);
    let own = naked_text_call(e, registry);
    assert(found_calls(b, registry) =~= naked_calls(b, all_objects(b, 0), registry));
    assert(found_calls(r, registry) =~= naked_calls(r, objects, registry));
    assert(call_ranges(b, registry) =~= naked_ranges(b, all_objects(b, 0), registry));
    assert(call_ranges(r, registry) =~= inner);
    if own is Some {
        let ranges = seq![(x.len() as int, n)] + later_objects(inner, n);
        lemma_cut_kept(x, e, r, ranges, inner);
        assert(x + Seq::<u8>::empty() =~= x);
    } else {
        assert(Seq::<(int, int)>::empty() + later_objects(inner, n) =~= later_objects(inner, n));
        lemma_uncut_kept(p0, r, inner);
    }
}

} // verus!
