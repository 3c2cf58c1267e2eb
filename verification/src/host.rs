//! The parent: it holds the bundles in its state, hands their snapshots to
//! the children on every render, and mutates them when a message arrives.

use crate::attribute::{Attribute, AttributeView, ButtonTypeOption};
use crate::bundle::{BundleView, PropsBundle, Snapshot, SnapshotView, Update};
use crate::keyed::has_key;
use crate::listener::HandlerId;
use vstd::prelude::*;

verus! {

/// The number that names the handler of the toggle listener.
pub const TOGGLE_HANDLER: u64 = 1;

/// The number that names the handler of the listener that removes itself.
pub const REMOVE_LISTENER_HANDLER: u64 = 2;

/// What a handler tells the parent.
#[derive(PartialEq, Eq, Debug)]
pub enum Msg {
    /// Toggle the disabled state of the button.
    ToggleDisabled,
    /// Remove the listener stored under the given listener key.
    RemoveListener(String),
}

/// The mathematical content of a [`Msg`].
pub enum MsgView {
    ToggleDisabled,
    RemoveListener(Seq<char>),
}

impl View for Msg {
    type V = MsgView;

    open spec fn view(&self) -> MsgView {
        match self {
            Msg::ToggleDisabled => MsgView::ToggleDisabled,
            Msg::RemoveListener(key) => MsgView::RemoveListener(key@),
        }
    }
}

impl Clone for Msg {
    fn clone(&self) -> (copy: Self)
        ensures
            copy == *self,
    {
        match self {
            Msg::ToggleDisabled => Msg::ToggleDisabled,
            Msg::RemoveListener(key) => Msg::RemoveListener(key.clone()),
        }
    }
}

/// The message that a handler of the parent sends when it runs: none for a
/// handler that is not the parent's.
pub open spec fn message_of(handler: HandlerId) -> Option<MsgView> {
    if handler.0 == TOGGLE_HANDLER {
        Some(MsgView::ToggleDisabled)
    } else if handler.0 == REMOVE_LISTENER_HANDLER {
        Some(MsgView::RemoveListener("click-event"@))
    } else {
        None
    }
}

/// The state of the parent, and what each message does to it.
pub struct HostView {
    pub btn_disabled: bool,
    pub primary: BundleView,
    pub warning: BundleView,
}

impl HostView {
    /// The state after initial setup: the primary bundle is seeded with
    /// `aria-atomic="true"`, `type="submit"` and two click listeners, the
    /// toggle under `my-disabled` and the self-removing one under
    /// `click-event`; the warning bundle is empty.
    pub open spec fn created(primary: Option<HandlerId>, warning: Option<HandlerId>) -> HostView {
        HostView {
            btn_disabled: false,
            primary: BundleView::empty(primary).add_attribute(
                AttributeView::aria_atomic(true),
            ).add_attribute(AttributeView::button_type(ButtonTypeOption::Submit)).add_listener(
                "my-disabled"@,
                "click"@,
                HandlerId(TOGGLE_HANDLER),
            ).add_listener("click-event"@, "click"@, HandlerId(REMOVE_LISTENER_HANDLER)),
            warning: BundleView::empty(warning),
        }
    }

    /// The invariant of the parent: that of its bundles.
    pub open spec fn wf(self) -> bool {
        self.primary.content.wf() && self.warning.content.wf()
    }

    /// Whether a toggle can be made: the generation counter of the primary
    /// bundle has room for the two mutations of a toggle.
    pub open spec fn can_toggle(self) -> bool {
        self.primary.content.generation + 2 <= u64::MAX
    }

    /// The state after a toggle. Where the toggle can be made, the flag is
    /// flipped; the primary bundle, which carries the toggle listener,
    /// gains `disabled` where the flag is now set and loses it where it is
    /// not. It gains `my-custom-attribute="lalalala"` on every toggle, also
    /// on the one that clears the flag, and never loses it. Where the
    /// toggle cannot be made, nothing changes: the flag is flipped only
    /// together with the bundle.
    pub open spec fn toggled(self) -> HostView {
        if self.can_toggle() {
            let disabled = !self.btn_disabled;
            let flagged = if disabled {
                self.primary.add_attribute(AttributeView::disabled())
            } else {
                self.primary.remove_attribute("disabled"@)
            };
            HostView {
                btn_disabled: disabled,
                primary: flagged.add_attribute(
                    AttributeView::custom("my-custom-attribute"@, Some("lalalala"@)),
                ),
                ..self
            }
        } else {
            self
        }
    }

    /// The state after a message.
    pub open spec fn update(self, msg: MsgView) -> HostView {
        match msg {
            MsgView::ToggleDisabled => self.toggled(),
            MsgView::RemoveListener(key) => HostView {
                primary: self.primary.remove_listener(key),
                ..self
            },
        }
    }

    /// Whether a message asks for a render: it does wherever it mutates a
    /// bundle, be it by a toggle or by the removal of a listener, so that
    /// the children see the mutation before the next event.
    pub open spec fn wants_render(self, msg: MsgView) -> bool {
        match msg {
            MsgView::ToggleDisabled => self.can_toggle(),
            MsgView::RemoveListener(_) => self.primary.mutable(),
        }
    }

    /// Whether the flag says what the primary bundle holds: the flag is set
    /// exactly where the bundle holds `disabled`.
    pub open spec fn agrees(self) -> bool {
        self.btn_disabled == has_key(self.primary.content.attributes, "disabled"@)
    }

    /// The state after a render is over: both bundles are clean.
    pub open spec fn rendered(self) -> HostView {
        HostView {
            primary: BundleView { dirty: false, ..self.primary },
            warning: BundleView { dirty: false, ..self.warning },
            ..self
        }
    }

    /// The state after an update was delivered under `callback`: the
    /// first bundle that has the callback takes over the snapshot, unless
    /// it holds what the snapshot holds already; where no bundle has the
    /// callback, nothing changes.
    pub open spec fn accept(self, callback: HandlerId, snapshot: SnapshotView) -> HostView {
        if self.primary.update_callback == Some(callback) {
            if self.primary.holds(snapshot) {
                self
            } else {
                HostView { primary: self.primary.adopt(snapshot), ..self }
            }
        } else if self.warning.update_callback == Some(callback) {
            if self.warning.holds(snapshot) {
                self
            } else {
                HostView { warning: self.warning.adopt(snapshot), ..self }
            }
        } else {
            self
        }
    }
}

/// The snapshots that one render hands to the children.
pub struct Rendering {
    /// For the button that carries the listeners.
    pub primary: Snapshot,
    /// For the other button.
    pub warning: Snapshot,
}

/// The parent.
pub struct PropsHost {
    btn_disabled: bool,
    button_primary_props: PropsBundle,
    button_warning_props: PropsBundle,
}

impl View for PropsHost {
    type V = HostView;

    closed spec fn view(&self) -> HostView {
        HostView {
            btn_disabled: self.btn_disabled,
            primary: self.button_primary_props@,
            warning: self.button_warning_props@,
        }
    }
}

impl PropsHost {
    /// The invariant of the parent.
    pub open spec fn wf(&self) -> bool {
        self@.wf()
    }

    fn seed(primary: &mut PropsBundle)
        requires
            old(primary).wf(),
            old(primary)@ == BundleView::empty(old(primary)@.update_callback),
        ensures
            final(primary).wf(),
            final(primary)@ == HostView::created(old(primary)@.update_callback, None).primary,
    {
        primary.add_attribute(Attribute::aria_atomic(true));
        primary.add_attribute(Attribute::button_type(ButtonTypeOption::Submit));
        primary.add_listener("my-disabled", "click", HandlerId(TOGGLE_HANDLER));
        primary.add_listener("click-event", "click", HandlerId(REMOVE_LISTENER_HANDLER));
    }

    /// Initial setup. The bundles have no update callback: the parent
    /// holds them itself.
    pub fn create() -> (host: PropsHost)
        ensures
            host.wf(),
            host@ == HostView::created(None, None),
    {
        let mut button_primary_props = PropsBundle::new();
        Self::seed(&mut button_primary_props);
        PropsHost {
            btn_disabled: false,
            button_primary_props,
            button_warning_props: PropsBundle::new(),
        }
    }

    /// Initial setup with update callbacks: whoever mutates a copy of a
    /// bundle hands the parent the new snapshot under the callback of that
    /// bundle.
    pub fn create_with_callbacks(primary: HandlerId, warning: HandlerId) -> (host: PropsHost)
        ensures
            host.wf(),
            host@ == HostView::created(Some(primary), Some(warning)),
    {
        let mut button_primary_props = PropsBundle::with_update_callback(primary);
        Self::seed(&mut button_primary_props);
        PropsHost {
            btn_disabled: false,
            button_primary_props,
            button_warning_props: PropsBundle::with_update_callback(warning),
        }
    }

    /// A parent over bundles that the caller has seeded.
    pub fn with_bundles(primary: PropsBundle, warning: PropsBundle) -> (host: PropsHost)
        requires
            primary.wf(),
            warning.wf(),
        ensures
            host.wf(),
            host@ == (HostView { btn_disabled: false, primary: primary@, warning: warning@ }),
    {
        PropsHost {
            btn_disabled: false,
            button_primary_props: primary,
            button_warning_props: warning,
        }
    }

    /// Handles a message, and says whether to render again: it says so
    /// wherever the message mutated a bundle, and only there.
    pub fn update(&mut self, msg: Msg) -> (render: bool)
        requires
            old(self).wf(),
        ensures
            final(self).wf(),
            final(self)@ == old(self)@.update(msg@),
            render == old(self)@.wants_render(msg@),
            render == (final(self)@ != old(self)@),
    {
        match msg {
            Msg::ToggleDisabled => {
                if self.button_primary_props.generation() > u64::MAX - 2 {
                    return false;
                }
                self.btn_disabled = !self.btn_disabled;
                if self.btn_disabled {
                    self.button_primary_props.add_attribute(Attribute::disabled());
                } else {
                    self.button_primary_props.remove_attribute(Attribute::disabled().get_key());
                }
                let my_attribute = Attribute::custom("my-custom-attribute", Some("lalalala"));
                self.button_primary_props.add_attribute(my_attribute);
                true
            },
            Msg::RemoveListener(key) => self.button_primary_props.remove_listener(key.as_str()),
        }
    }

    /// The snapshots for one render.
    pub fn render(&self) -> (rendering: Rendering)
        ensures
            rendering.primary@ == self@.primary.content,
            rendering.warning@ == self@.warning.content,
    {
        Rendering {
            primary: self.button_primary_props.snapshot(),
            warning: self.button_warning_props.snapshot(),
        }
    }

    /// The render is over: the children have the current state of both
    /// bundles, which are clean from now on.
    pub fn rendered(&mut self)
        requires
            old(self).wf(),
        ensures
            final(self).wf(),
            final(self)@ == old(self)@.rendered(),
    {
        self.button_primary_props.mark_clean();
        self.button_warning_props.mark_clean();
    }

    /// Whether a bundle was mutated since the last render was over.
    pub fn is_dirty(&self) -> (dirty: bool)
        ensures
            dirty == (self@.primary.dirty || self@.warning.dirty),
    {
        self.button_primary_props.is_dirty() || self.button_warning_props.is_dirty()
    }

    /// The message that a handler sends when it runs, if the handler is
    /// one of the parent's.
    pub fn on_event(handler: HandlerId) -> (msg: Option<Msg>)
        ensures
            match msg {
                Some(m) => message_of(handler) == Some(m@),
                None => message_of(handler) == None::<MsgView>,
            },
    {
        if handler.0 == TOGGLE_HANDLER {
            Some(Msg::ToggleDisabled)
        } else if handler.0 == REMOVE_LISTENER_HANDLER {
            Some(Msg::RemoveListener(String::from_str("click-event")))
        } else {
            None
        }
    }

    /// A handler has run: where it is one of the parent's, its message is
    /// handled. Says whether to render again.
    pub fn fire(&mut self, handler: HandlerId) -> (render: bool)
        requires
            old(self).wf(),
        ensures
            final(self).wf(),
            final(self)@ == match message_of(handler) {
                Some(msg) => old(self)@.update(msg),
                None => old(self)@,
            },
            render == match message_of(handler) {
                Some(msg) => old(self)@.wants_render(msg),
                None => false,
            },
            render == (final(self)@ != old(self)@),
    {
        match Self::on_event(handler) {
            Some(msg) => self.update(msg),
            None => false,
        }
    }

    /// Takes an update that a child sent through an update callback: the
    /// bundle with that callback takes over the snapshot delivered.
    /// Returns whether to render again: not where the bundle already held
    /// what the snapshot holds, and not where no bundle has the callback.
    pub fn accept(&mut self, update: Update) -> (render: bool)
        requires
            old(self).wf(),
            update.snapshot.wf(),
        ensures
            final(self).wf(),
            final(self)@ == old(self)@.accept(update.callback, update.snapshot@),
            render == (final(self)@ != old(self)@),
    {
        let Update { callback, snapshot } = update;
        if Self::has_callback(&self.button_primary_props, callback) {
            if self.button_primary_props.holds(&snapshot) {
                false
            } else {
                self.button_primary_props.adopt(snapshot)
            }
        } else if Self::has_callback(&self.button_warning_props, callback) {
            if self.button_warning_props.holds(&snapshot) {
                false
            } else {
                self.button_warning_props.adopt(snapshot)
            }
        } else {
            false
        }
    }

    fn has_callback(bundle: &PropsBundle, callback: HandlerId) -> (has: bool)
        ensures
            has == (bundle@.update_callback == Some(callback)),
    {
        match bundle.update_callback() {
            Some(c) => c == callback,
            None => false,
        }
    }

    /// Whether the button is disabled.
    pub fn btn_disabled(&self) -> (disabled: bool)
        ensures
            disabled == self@.btn_disabled,
    {
        self.btn_disabled
    }
}

} // verus!
