//! The guarantees of the protocols, stated once over the store model.
//!
//! Each lemma is proved against the transition functions that the
//! executable protocol functions are verified to realize.

use vstd::prelude::*;

use crate::metadata::Position;
use crate::metadata::Size;
use crate::metadata::WindowMetadata;
use crate::protocol::ReadyAction;
use crate::protocol::spec_on_close_requested;
use crate::protocol::spec_on_moved;
use crate::protocol::spec_on_resized;
use crate::protocol::spec_ready;
use crate::store::StoreModel;
use crate::store::has_label;
use crate::store::label_index;
use crate::store::lemma_push_entry;
use crate::store::lemma_upd_entry;
use crate::store::lookup;
use crate::store::upd_entry;
use crate::store::wf_store;

verus! {

/// A window never seen before: after the ready protocol the store holds
/// exactly one entry for its label, and that entry carries the live
/// window's attributes; the window is shown exactly when auto-show is
/// enabled.
pub proof fn lemma_ready_new_window(
    v: StoreModel,
    l: Seq<u8>,
    live: WindowMetadata,
    auto_show: bool,
    blacklist: Seq<Seq<u8>>,
)
    requires
        wf_store(v),
        !blacklist.contains(l),
        !has_label(v, l),
        v.len() < u64::MAX,
        l.len() <= u64::MAX,
    ensures
        ({
            let (sv, action, show) = spec_ready(v, l, live, auto_show, blacklist);
            &&& wf_store(sv)
            &&& lookup(sv, l) == Some(live)
            &&& sv.len() == v.len() + 1
            &&& (forall|i: int| 0 <= i < sv.len() ==> ((#[trigger] sv[i].0 == l) <==> i == v.len()))
            &&& action == ReadyAction::Recorded
            &&& show == auto_show
        }),
{
    lemma_push_entry(v, l, live);
    let sv = v.push((l, live));
    assert forall|i: int| 0 <= i < sv.len() implies ((#[trigger] sv[i].0 == l) <==> i == v.len()) by {
        if i < v.len() && sv[i].0 == l {
            assert(v[i].0 == l);
        }
    }
}

/// A window with a prior entry: the ready protocol leaves the store
/// unchanged, hands back exactly the stored attributes to apply, and
/// shows the window iff auto-show is enabled and the entry's stored
/// visibility is `true`.
pub proof fn lemma_ready_prior_entry(
    v: StoreModel,
    l: Seq<u8>,
    live: WindowMetadata,
    auto_show: bool,
    blacklist: Seq<Seq<u8>>,
    m: WindowMetadata,
)
    requires
        wf_store(v),
        !blacklist.contains(l),
        lookup(v, l) == Some(m),
    ensures
        ({
            let (sv, action, show) = spec_ready(v, l, live, auto_show, blacklist);
            &&& sv == v
            &&& action == ReadyAction::Restore(m)
            &&& (show <==> auto_show && m.visible)
        }),
{
}

/// The move filter: a reported position not strictly inside the
/// monitor's origin, an unknown monitor, or a maximized window leaves
/// the stored coordinates unchanged; a position strictly inside the
/// monitor with the window not maximized is accepted.  The other
/// attributes never change except the refreshed maximized flag.
pub proof fn lemma_move_filter(
    v: StoreModel,
    l: Seq<u8>,
    position: Position,
    is_maximized: bool,
    monitor: Option<Position>,
    m: WindowMetadata,
)
    requires
        wf_store(v),
        lookup(v, l) == Some(m),
    ensures
        ({
            let r = lookup(spec_on_moved(v, l, position, is_maximized, monitor), l).unwrap();
            &&& ((match monitor {
                Some(mp) => position.x <= mp.x || position.y <= mp.y || is_maximized,
                None => true,
            }) ==> r.x == m.x && r.y == m.y)
            &&& ((match monitor {
                Some(mp) => position.x > mp.x && position.y > mp.y && !is_maximized,
                None => false,
            }) ==> r.x == position.x && r.y == position.y)
            &&& r.maximized == is_maximized
            &&& r.width == m.width && r.height == m.height
            &&& r.visible == m.visible && r.decorated == m.decorated && r.fullscreen
                == m.fullscreen
        }),
        forall|l2: Seq<u8>| l2 != l ==> #[trigger] lookup(
            spec_on_moved(v, l, position, is_maximized, monitor),
            l2,
        ) == lookup(v, l2),
{
    assert(has_label(v, l));
    lemma_upd_entry(v, l, crate::protocol::moved_meta(m, position, is_maximized, monitor));
}

/// The resize filter: a zero width or height, or a maximized window,
/// leaves the stored dimensions unchanged; strictly positive dimensions
/// on a non-maximized window are accepted.  The position never changes;
/// the decorated, maximized and fullscreen flags are refreshed.
pub proof fn lemma_resize_filter(
    v: StoreModel,
    l: Seq<u8>,
    size: Size,
    is_maximized: bool,
    is_fullscreen: bool,
    is_decorated: bool,
    m: WindowMetadata,
)
    requires
        wf_store(v),
        lookup(v, l) == Some(m),
    ensures
        ({
            let r = lookup(
                spec_on_resized(v, l, size, is_maximized, is_fullscreen, is_decorated),
                l,
            ).unwrap();
            &&& ((size.width == 0 || size.height == 0 || is_maximized) ==> r.width == m.width
                && r.height == m.height)
            &&& ((size.width > 0 && size.height > 0 && !is_maximized) ==> r.width == size.width
                && r.height == size.height)
            &&& r.x == m.x && r.y == m.y
            &&& r.maximized == is_maximized && r.fullscreen == is_fullscreen && r.decorated
                == is_decorated
            &&& r.visible == m.visible
        }),
        forall|l2: Seq<u8>| l2 != l ==> #[trigger] lookup(
            spec_on_resized(v, l, size, is_maximized, is_fullscreen, is_decorated),
            l2,
        ) == lookup(v, l2),
{
    assert(has_label(v, l));
    lemma_upd_entry(
        v,
        l,
        crate::protocol::resized_meta(m, size, is_maximized, is_fullscreen, is_decorated),
    );
}

/// A blacklisted label never gains a store entry and its window is
/// never shown: the ready protocol for it skips and does not show; the
/// ready protocol for any other label, and every event step for any
/// label, keeps the store free of an entry for it.
pub proof fn lemma_blacklisted_never_tracked(
    v: StoreModel,
    l: Seq<u8>,
    l2: Seq<u8>,
    live: WindowMetadata,
    auto_show: bool,
    blacklist: Seq<Seq<u8>>,
    position: Position,
    is_maximized: bool,
    monitor: Option<Position>,
    size: Size,
    is_fullscreen: bool,
    is_decorated: bool,
    is_visible: bool,
)
    requires
        wf_store(v),
        blacklist.contains(l),
        !has_label(v, l),
    ensures
        ({
            let (sv, action, show) = spec_ready(v, l, live, auto_show, blacklist);
            sv == v && action == ReadyAction::Skipped && show == false
        }),
        !has_label(spec_ready(v, l2, live, auto_show, blacklist).0, l),
        !has_label(spec_on_moved(v, l2, position, is_maximized, monitor), l),
        !has_label(spec_on_resized(v, l2, size, is_maximized, is_fullscreen, is_decorated), l),
        !has_label(spec_on_close_requested(v, l2, is_visible), l),
{
    let sv2 = spec_ready(v, l2, live, auto_show, blacklist).0;
    assert(!has_label(sv2, l)) by {
        if l2 == l {
        } else if !blacklist.contains(l2) && lookup(v, l2) is None {
            assert(sv2 == v.push((l2, live)));
            if has_label(sv2, l) {
                let i = label_index(sv2, l);
                assert(sv2[i].0 == l);
                if i < v.len() {
                    assert(v[i].0 == l);
                } else {
                    assert(sv2[i].0 == l2);
                }
            }
        }
    }
    assert(!has_label(spec_on_moved(v, l2, position, is_maximized, monitor), l)) by {
        if has_label(v, l2) {
            let m2 = crate::protocol::moved_meta(
                lookup(v, l2).unwrap(),
                position,
                is_maximized,
                monitor,
            );
            lemma_upd_keeps_labels(v, l2, m2, l);
        }
    }
    assert(!has_label(spec_on_resized(v, l2, size, is_maximized, is_fullscreen, is_decorated), l))
        by {
        if has_label(v, l2) {
            let m2 = crate::protocol::resized_meta(
                lookup(v, l2).unwrap(),
                size,
                is_maximized,
                is_fullscreen,
                is_decorated,
            );
            lemma_upd_keeps_labels(v, l2, m2, l);
        }
    }
    assert(!has_label(spec_on_close_requested(v, l2, is_visible), l)) by {
        if has_label(v, l2) {
            let m2 = crate::protocol::close_meta(lookup(v, l2).unwrap(), is_visible);
            lemma_upd_keeps_labels(v, l2, m2, l);
        }
    }
}

/// Rewriting one entry's metadata neither adds nor removes labels.
proof fn lemma_upd_keeps_labels(v: StoreModel, l2: Seq<u8>, m: WindowMetadata, l: Seq<u8>)
    requires
        !has_label(v, l),
    ensures
        !has_label(upd_entry(v, l2, m), l),
{
    let w = upd_entry(v, l2, m);
    if has_label(w, l) {
        let i = label_index(w, l);
        assert(w[i].0 == l);
        assert(w[i].0 == v[i].0);
        assert(v[i].0 == l);
    }
}

} // verus!
