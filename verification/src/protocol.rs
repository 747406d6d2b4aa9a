//! The restore/snapshot protocol run when a window becomes ready, and
//! the live-update protocol that keeps a window's cache entry in step
//! with its move, resize and close events.
//!
//! Each protocol step is specified as a pure transition on the store
//! model; the executable functions are proved to realize exactly that
//! transition.

use vstd::prelude::*;
use vstd::string::*;

use crate::config::Builder;
use crate::metadata::Position;
use crate::metadata::Size;
use crate::metadata::WindowMetadata;
use crate::store::StoreModel;
use crate::store::WindowStore;
use crate::store::has_label;
use crate::store::lookup;
use crate::store::upd_entry;

verus! {

/// What the ready protocol decided for a window.
#[derive(Clone, Copy, Debug, PartialEq, Eq, Structural)]
pub enum ReadyAction {
    /// The label is blacklisted: nothing was read, stored or applied.
    Skipped,
    /// A prior entry exists: apply the carried metadata to the live
    /// window, in the order decorations, position, size, maximized,
    /// fullscreen.
    Restore(WindowMetadata),
    /// No prior entry existed: the live attributes were snapshotted
    /// into the store.
    Recorded,
}

/// The outcome of the ready protocol: what to apply to the live window,
/// and whether the window should now be shown and focused.
#[derive(Clone, Copy, Debug, PartialEq, Eq, Structural)]
pub struct ReadyOutcome {
    pub action: ReadyAction,
    pub show: bool,
}

/// A `Moved` event's effect on one record: the maximized flag is
/// refreshed from the live window; the coordinates are accepted only if
/// a monitor is known, the reported position lies strictly inside that
/// monitor's origin, and the window is not maximized.
pub open spec fn moved_meta(
    m: WindowMetadata,
    position: Position,
    is_maximized: bool,
    monitor: Option<Position>,
) -> WindowMetadata {
    let m1 = WindowMetadata { maximized: is_maximized, ..m };
    match monitor {
        Some(mp) => if position.x > mp.x && position.y > mp.y && !is_maximized {
            WindowMetadata { x: position.x, y: position.y, ..m1 }
        } else {
            m1
        },
        None => m1,
    }
}

/// A `Resized` event's effect on one record: decoration, maximized and
/// fullscreen flags are refreshed from the live window; the dimensions
/// are accepted only if both are strictly positive and the window is
/// not maximized.
pub open spec fn resized_meta(
    m: WindowMetadata,
    size: Size,
    is_maximized: bool,
    is_fullscreen: bool,
    is_decorated: bool,
) -> WindowMetadata {
    let m1 = WindowMetadata {
        decorated: is_decorated,
        maximized: is_maximized,
        fullscreen: is_fullscreen,
        ..m
    };
    if size.width > 0 && size.height > 0 && !is_maximized {
        WindowMetadata { width: size.width, height: size.height, ..m1 }
    } else {
        m1
    }
}

/// A `CloseRequested` event's effect on one record: the visibility is
/// refreshed from the live window.
pub open spec fn close_meta(m: WindowMetadata, is_visible: bool) -> WindowMetadata {
    WindowMetadata { visible: is_visible, ..m }
}

/// The store after a `Moved` event for `l`: the one entry is rewritten
/// per [`moved_meta`]; a store without an entry for `l` is unchanged.
pub open spec fn spec_on_moved(
    v: StoreModel,
    l: Seq<u8>,
    position: Position,
    is_maximized: bool,
    monitor: Option<Position>,
) -> StoreModel {
    if has_label(v, l) {
        upd_entry(v, l, moved_meta(lookup(v, l).unwrap(), position, is_maximized, monitor))
    } else {
        v
    }
}

/// The store after a `Resized` event for `l`, per [`resized_meta`].
pub open spec fn spec_on_resized(
    v: StoreModel,
    l: Seq<u8>,
    size: Size,
    is_maximized: bool,
    is_fullscreen: bool,
    is_decorated: bool,
) -> StoreModel {
    if has_label(v, l) {
        upd_entry(
            v,
            l,
            resized_meta(lookup(v, l).unwrap(), size, is_maximized, is_fullscreen, is_decorated),
        )
    } else {
        v
    }
}

/// The store after a `CloseRequested` event for `l`, per [`close_meta`].
pub open spec fn spec_on_close_requested(v: StoreModel, l: Seq<u8>, is_visible: bool) -> StoreModel {
    if has_label(v, l) {
        upd_entry(v, l, close_meta(lookup(v, l).unwrap(), is_visible))
    } else {
        v
    }
}

/// The ready protocol as a transition: the store afterwards, the action
/// decided, and whether the window should be shown.
///
/// A blacklisted label is skipped entirely.  Otherwise a prior entry is
/// restored (and the window shown iff `auto_show` and the entry's
/// stored visibility), or the live attributes are snapshotted into a
/// new entry (and the window shown iff `auto_show`).
pub open spec fn spec_ready(
    v: StoreModel,
    l: Seq<u8>,
    live: WindowMetadata,
    auto_show: bool,
    blacklist: Seq<Seq<u8>>,
) -> (StoreModel, ReadyAction, bool) {
    if blacklist.contains(l) {
        (v, ReadyAction::Skipped, false)
    } else {
        match lookup(v, l) {
            Some(m) => (v, ReadyAction::Restore(m), auto_show && m.visible),
            None => (v.push((l, live)), ReadyAction::Recorded, auto_show),
        }
    }
}

/// Run the ready protocol for the window labelled `label`, whose
/// current live attributes are `live` (attributes the host could not
/// answer are given their safe defaults by the caller: `true` for
/// visible and decorated, `false` for maximized and fullscreen).
///
/// The caller applies the returned action to the live window and, if
/// `show` is set, shows and focuses it.
pub fn window_ready(
    store: &mut WindowStore,
    config: &Builder,
    label: &str,
    live: WindowMetadata,
) -> (r: ReadyOutcome)
    requires
        old(store).wf(),
        old(store)@.len() < u64::MAX,
    ensures
        final(store).wf(),
        ({
            let (sv, action, show) = spec_ready(
                old(store)@,
                label.spec_bytes(),
                live,
                config.spec_auto_show(),
                config.spec_blacklist(),
            );
            final(store)@ == sv && r.action == action && r.show == show
        }),
{
    if config.is_blacklisted(label) {
        return ReadyOutcome { action: ReadyAction::Skipped, show: false };
    }
    match store.get(label) {
        Some(m) => ReadyOutcome {
            action: ReadyAction::Restore(m),
            show: config.auto_show() && m.visible,
        },
        None => {
            store.insert(label, live);
            ReadyOutcome { action: ReadyAction::Recorded, show: config.auto_show() }
        },
    }
}

/// Handle a `Moved` event: `position` is the event's payload,
/// `is_maximized` the window's current maximized state, and `monitor`
/// the origin of the window's current monitor, if the host knows it.
pub fn on_moved(
    store: &mut WindowStore,
    label: &str,
    position: Position,
    is_maximized: bool,
    monitor: Option<Position>,
)
    requires
        old(store).wf(),
    ensures
        final(store).wf(),
        final(store)@ == spec_on_moved(
            old(store)@,
            label.spec_bytes(),
            position,
            is_maximized,
            monitor,
        ),
{
    match store.get(label) {
        None => {},
        Some(m) => {
            let mut m2 = m;
            m2.maximized = is_maximized;
            match monitor {
                Some(mp) => {
                    if position.x > mp.x && position.y > mp.y && !is_maximized {
                        m2.x = position.x;
                        m2.y = position.y;
                    }
                },
                None => {},
            }
            proof {
                assert(m2 == moved_meta(m, position, is_maximized, monitor));
            }
            store.set_meta(label, m2);
        },
    }
}

/// Handle a `Resized` event: `size` is the event's payload; the three
/// flags are the window's current maximized, fullscreen and decorated
/// states.
pub fn on_resized(
    store: &mut WindowStore,
    label: &str,
    size: Size,
    is_maximized: bool,
    is_fullscreen: bool,
    is_decorated: bool,
)
    requires
        old(store).wf(),
    ensures
        final(store).wf(),
        final(store)@ == spec_on_resized(
            old(store)@,
            label.spec_bytes(),
            size,
            is_maximized,
            is_fullscreen,
            is_decorated,
        ),
{
    match store.get(label) {
        None => {},
        Some(m) => {
            let mut m2 = m;
            m2.decorated = is_decorated;
            m2.maximized = is_maximized;
            m2.fullscreen = is_fullscreen;
            if size.width > 0 && size.height > 0 && !is_maximized {
                m2.width = size.width;
                m2.height = size.height;
            }
            proof {
                assert(m2 == resized_meta(m, size, is_maximized, is_fullscreen, is_decorated));
            }
            store.set_meta(label, m2);
        },
    }
}

/// Handle a `CloseRequested` event: `is_visible` is the window's
/// current visibility (the caller defaults it to `true` if unreadable).
pub fn on_close_requested(store: &mut WindowStore, label: &str, is_visible: bool)
    requires
        old(store).wf(),
    ensures
        final(store).wf(),
        final(store)@ == spec_on_close_requested(old(store)@, label.spec_bytes(), is_visible),
{
    match store.get(label) {
        None => {},
        Some(m) => {
            let mut m2 = m;
            m2.visible = is_visible;
            store.set_meta(label, m2);
        },
    }
}

} // verus!
