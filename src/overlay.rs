//! Per-output overlay targets and the session state that the event handlers
//! mutate.
//!
//! Outputs and surfaces are named by the transport's object ids. Each target
//! also carries the caller's layer object `L`, which the library never looks
//! into: dropping a target drops that object, and with it the surface.
use vstd::prelude::*;

verus! {

/// One blanking overlay on one output.
pub struct OverlayTarget<L> {
    /// Id of the output that the overlay covers.
    pub output: u32,
    /// The output's name, where the transport gave one.
    pub output_name: Option<String>,
    /// Id of the overlay's surface.
    pub surface: u32,
    /// Negotiated width; 0 until the first size negotiation.
    pub width: u32,
    /// Negotiated height; 0 until the first size negotiation.
    pub height: u32,
    /// The last committed frame does not match the negotiated size.
    pub needs_redraw: bool,
    /// The caller's layer object for this overlay.
    pub layer: L,
}

/// A frame to paint: a full repaint of `surface` at `width` by `height`.
#[derive(Clone, Copy, Debug, PartialEq, Eq, Structural)]
pub struct DrawRequest {
    pub surface: u32,
    pub width: u32,
    pub height: u32,
}

/// The key symbol of the escape key.
pub const KEY_ESCAPE: u32 = 0xff1b;

/// A device class that a seat offers or retracts.
#[derive(Clone, Copy, Debug, PartialEq, Eq, Structural)]
pub enum Capability {
    Keyboard,
    Pointer,
    Touch,
}

/// What a pointer event reports, without its position or values.
#[derive(Clone, Copy, Debug, PartialEq, Eq, Structural)]
pub enum PointerKind {
    Enter,
    Leave,
    Motion,
    Press,
    Release,
    Axis,
}

/// A pointer event on `surface`.
#[derive(Clone, Copy, Debug, PartialEq, Eq, Structural)]
pub struct PointerInput {
    pub surface: u32,
    pub kind: PointerKind,
}

/// What to do with the cursor image.
#[derive(Clone, Copy, Debug, PartialEq, Eq, Structural)]
pub enum CursorAction {
    /// Show no cursor over the overlay.
    Hide,
    /// Go back to the default cursor.
    Reset,
}

/// The session state that the dispatch loop's handlers mutate.
pub struct SimpleLayer<L, K, P> {
    /// Set when the dispatch loop should stop.
    pub exit: bool,
    /// The live overlays, in order of creation.
    pub active_layers: Vec<OverlayTarget<L>>,
    /// The keyboard device, once the seat offered one.
    pub keyboard: Option<K>,
    /// The keyboard focus is on one of the overlays.
    pub keyboard_focus: bool,
    /// The pointer device, once the seat offered one.
    pub pointer: Option<P>,
    /// Names of the outputs to blank, matched exactly.
    pub selected_outputs: Vec<String>,
}

/// Some target covers `output`.
pub open spec fn tracks_output<L>(ts: Seq<OverlayTarget<L>>, output: u32) -> bool {
    exists|i: int| 0 <= i < ts.len() && #[trigger] ts[i].output == output
}

/// Some target draws on `surface`.
pub open spec fn tracks_surface<L>(ts: Seq<OverlayTarget<L>>, surface: u32) -> bool {
    exists|i: int| 0 <= i < ts.len() && #[trigger] ts[i].surface == surface
}

/// No two targets share an output or a surface.
pub open spec fn targets_unique<L>(ts: Seq<OverlayTarget<L>>) -> bool {
    forall|i: int, j: int|
        0 <= i < j < ts.len() ==> #[trigger] ts[i].output != #[trigger] ts[j].output
            && ts[i].surface != ts[j].surface
}

/// Exactly one target covers `output`.
pub open spec fn tracked_once<L>(ts: Seq<OverlayTarget<L>>, output: u32) -> bool {
    exists|i: int|
        0 <= i < ts.len() && #[trigger] ts[i].output == output && forall|j: int|
            0 <= j < ts.len() && #[trigger] ts[j].output == output ==> j == i
}

/// The position of the target that covers `output`.
pub open spec fn output_index<L>(ts: Seq<OverlayTarget<L>>, output: u32) -> int {
    choose|i: int| 0 <= i < ts.len() && #[trigger] ts[i].output == output
}

/// The position of the target that draws on `surface`.
pub open spec fn surface_index<L>(ts: Seq<OverlayTarget<L>>, surface: u32) -> int {
    choose|i: int| 0 <= i < ts.len() && #[trigger] ts[i].surface == surface
}

/// `name` is one of the selected output names.
pub open spec fn selects(sel: Seq<String>, name: Seq<char>) -> bool {
    exists|i: int| 0 <= i < sel.len() && #[trigger] sel[i]@ == name
}

/// An advertised output gets an overlay: its name is known and selected, and
/// no overlay covers it yet.
pub open spec fn wants_overlay<L>(
    sel: Seq<String>,
    ts: Seq<OverlayTarget<L>>,
    output: u32,
    name: Option<String>,
) -> bool {
    match name {
        Some(n) => selects(sel, n@) && !tracks_output(ts, output),
        None => false,
    }
}

/// A freshly created overlay: no size yet, and a frame owed.
pub open spec fn new_target<L>(output: u32, name: Option<String>, surface: u32, layer: L) -> OverlayTarget<L> {
    OverlayTarget { output, output_name: name, surface, width: 0, height: 0, needs_redraw: true, layer }
}

/// The targets after adding an overlay; nothing changes where the output or
/// the surface is already tracked.
pub open spec fn with_target<L>(
    ts: Seq<OverlayTarget<L>>,
    output: u32,
    name: Option<String>,
    surface: u32,
    layer: L,
) -> Seq<OverlayTarget<L>> {
    if !tracks_output(ts, output) && !tracks_surface(ts, surface) {
        ts.push(new_target(output, name, surface, layer))
    } else {
        ts
    }
}

/// The targets after an output was advertised and, where it was selected, an
/// overlay was made for it on `surface`.
pub open spec fn advertised<L>(
    sel: Seq<String>,
    ts: Seq<OverlayTarget<L>>,
    output: u32,
    name: Option<String>,
    surface: u32,
    layer: L,
) -> Seq<OverlayTarget<L>> {
    if wants_overlay(sel, ts, output, name) {
        with_target(ts, output, name, surface, layer)
    } else {
        ts
    }
}

/// The targets after `output` went away.
pub open spec fn without_output<L>(ts: Seq<OverlayTarget<L>>, output: u32) -> Seq<OverlayTarget<L>> {
    if tracks_output(ts, output) {
        ts.remove(output_index(ts, output))
    } else {
        ts
    }
}

/// The targets after the transport closed `surface`.
pub open spec fn without_surface<L>(ts: Seq<OverlayTarget<L>>, surface: u32) -> Seq<OverlayTarget<L>> {
    if tracks_surface(ts, surface) {
        ts.remove(surface_index(ts, surface))
    } else {
        ts
    }
}

/// The targets after dismissal: none.
pub open spec fn dismissed<L>(ts: Seq<OverlayTarget<L>>) -> Seq<OverlayTarget<L>> {
    Seq::empty()
}

/// A target owes a frame and has a size to paint it at.
pub open spec fn drawable<L>(t: OverlayTarget<L>) -> bool {
    t.needs_redraw && t.width > 0 && t.height > 0
}

/// A target after the render pass: a frame that was owed is committed.
pub open spec fn painted<L>(t: OverlayTarget<L>) -> OverlayTarget<L> {
    if drawable(t) {
        OverlayTarget { needs_redraw: false, ..t }
    } else {
        t
    }
}

/// The targets after the render pass.
pub open spec fn after_draw<L>(ts: Seq<OverlayTarget<L>>) -> Seq<OverlayTarget<L>> {
    ts.map_values(|t: OverlayTarget<L>| painted(t))
}

/// The frame that the render pass paints for `t`.
pub open spec fn request_of<L>(t: OverlayTarget<L>) -> DrawRequest {
    DrawRequest { surface: t.surface, width: t.width, height: t.height }
}

/// The frames that the render pass paints, in the order of the targets.
pub open spec fn draw_requests<L>(ts: Seq<OverlayTarget<L>>) -> Seq<DrawRequest>
    decreases ts.len(),
{
    if ts.len() == 0 {
        Seq::empty()
    } else {
        let rest = draw_requests(ts.drop_last());
        if drawable(ts.last()) {
            rest.push(request_of(ts.last()))
        } else {
            rest
        }
    }
}

/// A target after a size negotiation of `width` by `height` for `surface`. A
/// zero dimension leaves the size to the client and changes nothing; a new
/// size is stored and owes a frame.
pub open spec fn resized<L>(t: OverlayTarget<L>, surface: u32, width: u32, height: u32) -> OverlayTarget<L> {
    if t.surface == surface && width > 0 && height > 0 && (t.width != width || t.height != height) {
        OverlayTarget { width, height, needs_redraw: true, ..t }
    } else {
        t
    }
}

/// The targets after a size negotiation.
pub open spec fn after_configure<L>(
    ts: Seq<OverlayTarget<L>>,
    surface: u32,
    width: u32,
    height: u32,
) -> Seq<OverlayTarget<L>> {
    ts.map_values(|t: OverlayTarget<L>| resized(t, surface, width, height))
}

/// What a pointer event on one of the overlays does to the cursor.
pub open spec fn cursor_action_of(kind: PointerKind) -> Option<CursorAction> {
    match kind {
        PointerKind::Enter => Some(CursorAction::Hide),
        PointerKind::Leave => Some(CursorAction::Reset),
        _ => None,
    }
}

/// The cursor actions for a frame of pointer events, in order; events on
/// other surfaces are ignored.
pub open spec fn cursor_actions<L>(ts: Seq<OverlayTarget<L>>, events: Seq<PointerInput>) -> Seq<CursorAction>
    decreases events.len(),
{
    if events.len() == 0 {
        Seq::empty()
    } else {
        let rest = cursor_actions(ts, events.drop_last());
        let e = events.last();
        match cursor_action_of(e.kind) {
            Some(a) if tracks_surface(ts, e.surface) => rest.push(a),
            _ => rest,
        }
    }
}

/// In a sequence of unique targets, two targets that share an output or a
/// surface are the same one.
pub proof fn lemma_unique_index<L>(ts: Seq<OverlayTarget<L>>, i: int, k: int)
    requires
        targets_unique(ts),
        0 <= i < ts.len(),
        0 <= k < ts.len(),
        ts[i].output == ts[k].output || ts[i].surface == ts[k].surface,
    ensures
        i == k,
{
    if i < k {
        assert(ts[i].output != ts[k].output);
    } else if k < i {
        assert(ts[k].output != ts[i].output);
    }
}

/// Removing a target keeps the rest unique, and none of them shares the
/// removed target's output or surface.
pub proof fn lemma_unique_remove<L>(ts: Seq<OverlayTarget<L>>, i: int)
    requires
        targets_unique(ts),
        0 <= i < ts.len(),
    ensures
        targets_unique(ts.remove(i)),
        !tracks_output(ts.remove(i), ts[i].output),
        !tracks_surface(ts.remove(i), ts[i].surface),
{
    let r = ts.remove(i);
    assert forall|a: int, b: int| 0 <= a < b < r.len() implies #[trigger] r[a].output != #[trigger] r[b].output
        && r[a].surface != r[b].surface by {
        let a2 = if a < i { a } else { a + 1 };
        let b2 = if b < i { b } else { b + 1 };
        assert(0 <= a2 < b2 < ts.len());
        assert(r[a] == ts[a2] && r[b] == ts[b2]);
        assert(ts[a2].output != ts[b2].output);
    }
    assert forall|j: int| 0 <= j < r.len() implies #[trigger] r[j].output != ts[i].output
        && r[j].surface != ts[i].surface by {
        let j2 = if j < i { j } else { j + 1 };
        assert(r[j] == ts[j2]);
        if j2 < i {
            assert(ts[j2].output != ts[i].output);
        } else {
            assert(ts[i].output != ts[j2].output);
        }
    }
    assert forall|j: int| 0 <= j < r.len() implies #[trigger] r[j].surface != ts[i].surface by {
        assert(r[j].output != ts[i].output);
    }
}

/// Every frame that the render pass paints has a positive width and height.
pub proof fn lemma_draws_are_sized<L>(ts: Seq<OverlayTarget<L>>)
    ensures
        forall|k: int| 0 <= k < draw_requests(ts).len() ==> #[trigger] draw_requests(ts)[k].width > 0
            && draw_requests(ts)[k].height > 0,
    decreases ts.len(),
{
    if ts.len() > 0 {
        let rest = ts.drop_last();
        lemma_draws_are_sized(rest);
        let r = draw_requests(ts);
        assert forall|k: int| 0 <= k < r.len() implies #[trigger] r[k].width > 0 && r[k].height > 0 by {
            if k < draw_requests(rest).len() {
                assert(r[k] == draw_requests(rest)[k]);
            }
        }
    }
}

/// A target that owes a frame and has a positive size gets its frame, at its
/// size, from the render pass.
pub proof fn lemma_drawable_is_drawn<L>(ts: Seq<OverlayTarget<L>>, i: int)
    requires
        0 <= i < ts.len(),
        drawable(ts[i]),
    ensures
        draw_requests(ts).contains(request_of(ts[i])),
    decreases ts.len(),
{
    if i == ts.len() - 1 {
        let r = draw_requests(ts);
        assert(r[r.len() - 1] == request_of(ts[i]));
    } else {
        lemma_drawable_is_drawn(ts.drop_last(), i);
        let k = choose|k: int| 0 <= k < draw_requests(ts.drop_last()).len()
            && draw_requests(ts.drop_last())[k] == request_of(ts[i]);
        assert(draw_requests(ts)[k] == request_of(ts[i]));
    }
}

/// Right after the render pass no target owes a frame that it could paint:
/// every target with a positive size has its debt cleared.
pub proof fn lemma_draw_clears_debt<L>(ts: Seq<OverlayTarget<L>>)
    ensures
        after_draw(ts).len() == ts.len(),
        forall|i: int| 0 <= i < ts.len() ==> !drawable(#[trigger] after_draw(ts)[i]),
        forall|i: int|
            0 <= i < ts.len() && ts[i].width > 0 && ts[i].height > 0 ==> !(#[trigger] after_draw(ts)[i]).needs_redraw,
{
}

/// A size negotiation that changes a target's size to a positive one stores
/// the size, owes a frame, and the render pass that follows paints that frame
/// at exactly the new size.
pub proof fn lemma_resize_owes_frame<L>(ts: Seq<OverlayTarget<L>>, i: int, width: u32, height: u32)
    requires
        0 <= i < ts.len(),
        width > 0,
        height > 0,
        ts[i].width != width || ts[i].height != height,
    ensures
        after_configure(ts, ts[i].surface, width, height)[i].needs_redraw,
        after_configure(ts, ts[i].surface, width, height)[i].width == width,
        after_configure(ts, ts[i].surface, width, height)[i].height == height,
        draw_requests(after_configure(ts, ts[i].surface, width, height)).contains(
            (DrawRequest { surface: ts[i].surface, width, height }),
        ),
{
    let c = after_configure(ts, ts[i].surface, width, height);
    assert(c[i] == resized(ts[i], ts[i].surface, width, height));
    lemma_drawable_is_drawn(c, i);
}

/// Dismissal leaves no overlay, and dismissing again changes nothing.
pub proof fn lemma_dismiss_idempotent<L>(ts: Seq<OverlayTarget<L>>)
    ensures
        dismissed(ts).len() == 0,
        dismissed(dismissed(ts)) == dismissed(ts),
{
}

/// An advertised output whose name is selected gets exactly one overlay, on
/// the fresh surface made for it, and advertising it again adds none.
pub proof fn lemma_advertised_once<L>(
    sel: Seq<String>,
    ts: Seq<OverlayTarget<L>>,
    output: u32,
    name: String,
    surface: u32,
    layer: L,
    surface2: u32,
    layer2: L,
)
    requires
        targets_unique(ts),
        selects(sel, name@),
        !tracks_surface(ts, surface),
    ensures
        targets_unique(advertised(sel, ts, output, Some(name), surface, layer)),
        tracked_once(advertised(sel, ts, output, Some(name), surface, layer), output),
        advertised(sel, advertised(sel, ts, output, Some(name), surface, layer), output, Some(name), surface2, layer2)
            == advertised(sel, ts, output, Some(name), surface, layer),
{
    let t1 = advertised(sel, ts, output, Some(name), surface, layer);
    if tracks_output(ts, output) {
        assert(t1 == ts);
    } else {
        assert(t1 == ts.push(new_target(output, Some(name), surface, layer)));
        assert(t1[ts.len() as int].output == output);
        assert forall|a: int, b: int| 0 <= a < b < t1.len() implies #[trigger] t1[a].output
            != #[trigger] t1[b].output && t1[a].surface != t1[b].surface by {
            assert(t1[a] == ts[a]);
            if b == ts.len() {
                assert(ts[a].output != output);
                assert(ts[a].surface != surface);
            } else {
                assert(t1[b] == ts[b]);
                assert(ts[a].output != ts[b].output);
            }
        }
    }
    let k = choose|k: int| 0 <= k < t1.len() && #[trigger] t1[k].output == output;
    assert forall|j: int| 0 <= j < t1.len() && #[trigger] t1[j].output == output implies j == k by {
        lemma_unique_index(t1, j, k);
    }
    assert(tracks_output(t1, output));
}

impl<L, K, P> SimpleLayer<L, K, P> {
    /// The session's invariant: one overlay per output and per surface.
    pub open spec fn wf(&self) -> bool {
        targets_unique(self.active_layers@)
    }

    /// All but the overlays are as in `other`.
    pub open spec fn same_but_layers(&self, other: &Self) -> bool {
        &&& self.exit == other.exit
        &&& self.keyboard == other.keyboard
        &&& self.keyboard_focus == other.keyboard_focus
        &&& self.pointer == other.pointer
        &&& self.selected_outputs@ == other.selected_outputs@
    }

    /// A session with no overlays and no devices, blanking the outputs named
    /// in `selected_outputs`.
    pub fn new(selected_outputs: Vec<String>) -> (r: Self)
        ensures
            r.wf(),
            !r.exit,
            r.active_layers@.len() == 0,
            r.keyboard is None,
            !r.keyboard_focus,
            r.pointer is None,
            r.selected_outputs@ == selected_outputs@,
    {
        SimpleLayer {
            exit: false,
            active_layers: Vec::new(),
            keyboard: None,
            keyboard_focus: false,
            pointer: None,
            selected_outputs,
        }
    }

    /// `name` is one of the selected output names.
    pub fn is_selected(&self, name: &String) -> (r: bool)
        ensures
            r == selects(self.selected_outputs@, name@),
    {
        let n = self.selected_outputs.len();
        let mut i: usize = 0;
        while i < n
            invariant
                n == self.selected_outputs@.len(),
                i <= n,
                forall|j: int| 0 <= j < i ==> #[trigger] self.selected_outputs@[j]@ != name@,
            decreases n - i,
        {
            if self.selected_outputs[i] == *name {
                return true;
            }
            i = i + 1;
        }
        false
    }

    /// The position of the overlay on `output`, if any.
    fn find_output(&self, output: u32) -> (r: Option<usize>)
        ensures
            match r {
                Some(i) => i < self.active_layers@.len() && self.active_layers@[i as int].output == output,
                None => !tracks_output(self.active_layers@, output),
            },
    {
        let n = self.active_layers.len();
        let mut i: usize = 0;
        while i < n
            invariant
                n == self.active_layers@.len(),
                i <= n,
                forall|j: int| 0 <= j < i ==> #[trigger] self.active_layers@[j].output != output,
            decreases n - i,
        {
            if self.active_layers[i].output == output {
                return Some(i);
            }
            i = i + 1;
        }
        None
    }

    /// The position of the overlay drawing on `surface`, if any.
    fn find_surface(&self, surface: u32) -> (r: Option<usize>)
        ensures
            match r {
                Some(i) => i < self.active_layers@.len() && self.active_layers@[i as int].surface == surface,
                None => !tracks_surface(self.active_layers@, surface),
            },
    {
        let n = self.active_layers.len();
        let mut i: usize = 0;
        while i < n
            invariant
                n == self.active_layers@.len(),
                i <= n,
                forall|j: int| 0 <= j < i ==> #[trigger] self.active_layers@[j].surface != surface,
            decreases n - i,
        {
            if self.active_layers[i].surface == surface {
                return Some(i);
            }
            i = i + 1;
        }
        None
    }

    /// Handles an advertised output: whether an overlay is to be made for it.
    /// Its name must be known and selected, and no overlay may cover it yet,
    /// so that advertising an output again makes no second overlay.
    pub fn new_output(&self, output: u32, name: &Option<String>) -> (r: bool)
        ensures
            r == wants_overlay(self.selected_outputs@, self.active_layers@, output, *name),
    {
        match name {
            Some(n) => self.is_selected(n) && self.find_output(output).is_none(),
            None => false,
        }
    }

    /// Adds the overlay made for `output` on `surface`, with no size yet and a
    /// frame owed. Nothing is added where an overlay already covers the output
    /// or draws on the surface; the result says whether it was added.
    pub fn create_layer(&mut self, output: u32, output_name: Option<String>, surface: u32, layer: L) -> (added: bool)
        requires
            old(self).wf(),
        ensures
            final(self).wf(),
            final(self).same_but_layers(old(self)),
            final(self).active_layers@ == with_target(old(self).active_layers@, output, output_name, surface, layer),
            added == (!tracks_output(old(self).active_layers@, output)
                && !tracks_surface(old(self).active_layers@, surface)),
            added ==> tracks_output(final(self).active_layers@, output),
    {
        if self.find_output(output).is_some() {
            return false;
        }
        if self.find_surface(surface).is_some() {
            return false;
        }
        let t = OverlayTarget {
            output,
            output_name,
            surface,
            width: 0,
            height: 0,
            needs_redraw: true,
            layer,
        };
        self.active_layers.push(t);
        assert(self.active_layers@[self.active_layers@.len() - 1].output == output);
        true
    }

    /// Dismisses every overlay. The session goes on, with none left.
    pub fn remove_all_layers(&mut self)
        requires
            old(self).wf(),
        ensures
            final(self).wf(),
            final(self).same_but_layers(old(self)),
            final(self).active_layers@ == dismissed(old(self).active_layers@),
    {
        self.active_layers.clear();
        assert(self.active_layers@ =~= dismissed(old(self).active_layers@));
    }

    /// Handles a removed output: its overlay, if any, goes away.
    pub fn output_destroyed(&mut self, output: u32)
        requires
            old(self).wf(),
        ensures
            final(self).wf(),
            final(self).same_but_layers(old(self)),
            final(self).active_layers@ == without_output(old(self).active_layers@, output),
            !tracks_output(final(self).active_layers@, output),
    {
        let ghost ts = self.active_layers@;
        if let Some(i) = self.find_output(output) {
            proof {
                lemma_unique_index(ts, i as int, output_index(ts, output));
                lemma_unique_remove(ts, i as int);
            }
            let _gone = self.active_layers.remove(i);
        }
    }

    /// Handles the transport closing an overlay's surface: that overlay goes
    /// away.
    pub fn closed(&mut self, surface: u32)
        requires
            old(self).wf(),
        ensures
            final(self).wf(),
            final(self).same_but_layers(old(self)),
            final(self).active_layers@ == without_surface(old(self).active_layers@, surface),
            !tracks_surface(final(self).active_layers@, surface),
    {
        let ghost ts = self.active_layers@;
        if let Some(i) = self.find_surface(surface) {
            proof {
                lemma_unique_index(ts, i as int, surface_index(ts, surface));
                lemma_unique_remove(ts, i as int);
            }
            let _gone = self.active_layers.remove(i);
        }
    }
    /// The render pass: paints every target that owes a frame and has a
    /// positive size, and clears its debt. The caller commits the returned
    /// frames, in order, and stops the process if one cannot be committed, so
    /// the debt is cleared only when the frame is on screen.
    #[verifier::rlimit(30)]
    pub fn draw(&mut self) -> (r: Vec<DrawRequest>)
        requires
            old(self).wf(),
        ensures
            final(self).wf(),
            final(self).same_but_layers(old(self)),
            final(self).active_layers@ == after_draw(old(self).active_layers@),
            r@ == draw_requests(old(self).active_layers@),
    {
        let ghost ts = self.active_layers@;
        let mut reqs: Vec<DrawRequest> = Vec::new();
        let n = self.active_layers.len();
        let mut i: usize = 0;
        while i < n
            invariant
                n == ts.len(),
                self.active_layers@.len() == n,
                i <= n,
                self.same_but_layers(old(self)),
                ts == old(self).active_layers@,
                forall|j: int| 0 <= j < i ==> #[trigger] self.active_layers@[j] == painted(ts[j]),
                forall|j: int| i <= j < n ==> #[trigger] self.active_layers@[j] == ts[j],
                reqs@ == draw_requests(ts.take(i as int)),
            decreases n - i,
        {
            let t = &self.active_layers[i];
            if t.needs_redraw && t.width > 0 && t.height > 0 {
                reqs.push(DrawRequest { surface: t.surface, width: t.width, height: t.height });
                self.active_layers[i].needs_redraw = false;
            }
            assert(ts.take(i + 1).drop_last() =~= ts.take(i as int));
            i = i + 1;
        }
        assert(ts.take(n as int) =~= ts);
        assert(self.active_layers@ =~= after_draw(ts));
        assert forall|a: int, b: int| 0 <= a < b < n implies #[trigger] self.active_layers@[a].output
            != #[trigger] self.active_layers@[b].output && self.active_layers@[a].surface
            != self.active_layers@[b].surface by {
            assert(ts[a].output != ts[b].output);
        }
        reqs
    }

    /// Handles a size negotiation of `width` by `height` for `surface`, then
    /// runs the render pass. A new positive size is stored and owes a frame; a
    /// zero dimension or an unknown surface changes no size.
    #[verifier::rlimit(30)]
    pub fn configure(&mut self, surface: u32, width: u32, height: u32) -> (r: Vec<DrawRequest>)
        requires
            old(self).wf(),
        ensures
            final(self).wf(),
            final(self).same_but_layers(old(self)),
            final(self).active_layers@ == after_draw(after_configure(old(self).active_layers@, surface, width, height)),
            r@ == draw_requests(after_configure(old(self).active_layers@, surface, width, height)),
    {
        let ghost ts = self.active_layers@;
        let n = self.active_layers.len();
        let mut i: usize = 0;
        while i < n
            invariant
                n == ts.len(),
                self.active_layers@.len() == n,
                i <= n,
                self.same_but_layers(old(self)),
                ts == old(self).active_layers@,
                forall|j: int| 0 <= j < i ==> #[trigger] self.active_layers@[j] == resized(ts[j], surface, width, height),
                forall|j: int| i <= j < n ==> #[trigger] self.active_layers@[j] == ts[j],
            decreases n - i,
        {
            let t = &self.active_layers[i];
            if t.surface == surface && width > 0 && height > 0 && (t.width != width || t.height != height) {
                self.active_layers[i].width = width;
                self.active_layers[i].height = height;
                self.active_layers[i].needs_redraw = true;
            }
            i = i + 1;
        }
        assert(self.active_layers@ =~= after_configure(ts, surface, width, height));
        assert forall|a: int, b: int| 0 <= a < b < n implies #[trigger] self.active_layers@[a].output
            != #[trigger] self.active_layers@[b].output && self.active_layers@[a].surface
            != self.active_layers@[b].surface by {
            assert(ts[a].output != ts[b].output);
        }
        self.draw()
    }
    /// Handles the keyboard focus entering `surface`.
    pub fn enter(&mut self, surface: u32)
        requires
            old(self).wf(),
        ensures
            final(self).wf(),
            final(self).active_layers@ == old(self).active_layers@,
            final(self).keyboard_focus == (old(self).keyboard_focus || tracks_surface(old(self).active_layers@, surface)),
            final(self).exit == old(self).exit,
            final(self).keyboard == old(self).keyboard,
            final(self).pointer == old(self).pointer,
            final(self).selected_outputs@ == old(self).selected_outputs@,
    {
        if self.find_surface(surface).is_some() {
            self.keyboard_focus = true;
        }
    }

    /// Handles the keyboard focus leaving `surface`.
    pub fn leave(&mut self, surface: u32)
        requires
            old(self).wf(),
        ensures
            final(self).wf(),
            final(self).active_layers@ == old(self).active_layers@,
            final(self).keyboard_focus == (old(self).keyboard_focus && !tracks_surface(old(self).active_layers@, surface)),
            final(self).exit == old(self).exit,
            final(self).keyboard == old(self).keyboard,
            final(self).pointer == old(self).pointer,
            final(self).selected_outputs@ == old(self).selected_outputs@,
    {
        if self.find_surface(surface).is_some() {
            self.keyboard_focus = false;
        }
    }

    /// Handles a key press: escape dismisses every overlay, any other key
    /// changes nothing.
    pub fn press_key(&mut self, keysym: u32)
        requires
            old(self).wf(),
        ensures
            final(self).wf(),
            final(self).same_but_layers(old(self)),
            final(self).active_layers@ == if keysym == KEY_ESCAPE {
                dismissed(old(self).active_layers@)
            } else {
                old(self).active_layers@
            },
    {
        if keysym == KEY_ESCAPE {
            self.remove_all_layers();
        }
    }

    /// Handles a frame of pointer events: the cursor is hidden when the
    /// pointer enters an overlay and reset when it leaves one. Other events,
    /// and events on other surfaces, ask for nothing.
    pub fn pointer_frame(&self, events: &Vec<PointerInput>) -> (r: Vec<CursorAction>)
        ensures
            r@ == cursor_actions(self.active_layers@, events@),
    {
        let mut actions: Vec<CursorAction> = Vec::new();
        let n = events.len();
        let mut i: usize = 0;
        while i < n
            invariant
                n == events@.len(),
                i <= n,
                actions@ == cursor_actions(self.active_layers@, events@.take(i as int)),
            decreases n - i,
        {
            let e = events[i];
            assert(events@.take(i + 1).drop_last() =~= events@.take(i as int));
            assert(events@.take(i + 1).last() == e);
            if self.find_surface(e.surface).is_some() {
                match e.kind {
                    PointerKind::Enter => actions.push(CursorAction::Hide),
                    PointerKind::Leave => actions.push(CursorAction::Reset),
                    _ => {},
                }
            }
            i = i + 1;
        }
        assert(events@.take(n as int) =~= events@);
        actions
    }

    /// Handles a capability that the seat offers: whether its device is to
    /// be acquired. Each device is acquired once; touch is not used.
    pub fn new_capability(&self, capability: Capability) -> (r: bool)
        ensures
            r == match capability {
                Capability::Keyboard => self.keyboard is None,
                Capability::Pointer => self.pointer is None,
                Capability::Touch => false,
            },
    {
        match capability {
            Capability::Keyboard => self.keyboard.is_none(),
            Capability::Pointer => self.pointer.is_none(),
            Capability::Touch => false,
        }
    }

    /// Keeps the keyboard device acquired for the seat.
    pub fn set_keyboard(&mut self, keyboard: K)
        ensures
            final(self).keyboard == Some(keyboard),
            final(self).active_layers@ == old(self).active_layers@,
            final(self).exit == old(self).exit,
            final(self).keyboard_focus == old(self).keyboard_focus,
            final(self).pointer == old(self).pointer,
            final(self).selected_outputs@ == old(self).selected_outputs@,
    {
        self.keyboard = Some(keyboard);
    }

    /// Keeps the pointer device acquired for the seat.
    pub fn set_pointer(&mut self, pointer: P)
        ensures
            final(self).pointer == Some(pointer),
            final(self).active_layers@ == old(self).active_layers@,
            final(self).exit == old(self).exit,
            final(self).keyboard == old(self).keyboard,
            final(self).keyboard_focus == old(self).keyboard_focus,
            final(self).selected_outputs@ == old(self).selected_outputs@,
    {
        self.pointer = Some(pointer);
    }

    /// Handles a capability that the seat retracts: its device, if held, is
    /// handed back for release.
    pub fn remove_capability(&mut self, capability: Capability) -> (r: (Option<K>, Option<P>))
        ensures
            final(self).active_layers@ == old(self).active_layers@,
            final(self).exit == old(self).exit,
            final(self).keyboard_focus == old(self).keyboard_focus,
            final(self).selected_outputs@ == old(self).selected_outputs@,
            capability == Capability::Keyboard ==> r.0 == old(self).keyboard && final(self).keyboard is None,
            capability != Capability::Keyboard ==> r.0 is None && final(self).keyboard == old(self).keyboard,
            capability == Capability::Pointer ==> r.1 == old(self).pointer && final(self).pointer is None,
            capability != Capability::Pointer ==> r.1 is None && final(self).pointer == old(self).pointer,
    {
        match capability {
            Capability::Keyboard => (self.keyboard.take(), None),
            Capability::Pointer => (None, self.pointer.take()),
            Capability::Touch => (None, None),
        }
    }
}

} // verus!
