//! The router together with the callbacks of the framework and of the
//! application.
//!
//! An event is first routed: the state changes and the callbacks that are due
//! are listed, exactly as [`RouterView`] says. Then the callbacks run, in the
//! order of the list: for each entry the framework's callback for the kind of
//! widget and the kind of event, then the application's. What a callback does
//! to the widget it is handed is its own business; the tree is out of its
//! reach, and what it wants changed there it asks for through the
//! [`Commands`], which are carried out when all callbacks have run.
//!
//! What a callback leaves is known only by what the callback itself promises.
//! [`internal_ran`] and [`user_ran`] name what one call of a callback can
//! lead to, and [`fired`], [`dispatched`] and [`handled`] are built on them:
//! the contracts here say which callbacks run, in which order and on what,
//! and that nothing changes but what they leave.

use crate::events::{
    CallBackEvent, CallBackKey, Command, Commands, Dispatch, ModifiersState, MouseButton,
    SystemEvent, WindowMove,
};
use crate::handle::Handle;
use crate::model::RouterView;
use crate::widget::{NodeView, Widget, WidgetView};
use crate::widgets::Widgets;
use std::collections::HashMap;
use std::marker::PhantomData;
use vstd::prelude::*;

verus! {

broadcast use vstd::std_specs::hash::group_hash_axioms;

/// Whether a callback of the framework can be called on whatever it is
/// handed.
pub open spec fn total_internal<I: Fn(&mut Widget, &CallBackEvent)>(callback: I) -> bool {
    forall|widget: &mut Widget, event: &CallBackEvent| #[trigger]
        call_requires(callback, (widget, event))
}

/// Whether a callback of the application can be called on whatever it is
/// handed.
pub open spec fn total_user<
    Message,
    T,
    U: Fn(&mut Widget, &CallBackEvent, &mut Commands, &mut T, &mut Vec<Message>),
>(callback: U) -> bool {
    forall|
        widget: &mut Widget,
        event: &CallBackEvent,
        commands: &mut Commands,
        user_data: &mut T,
        messages: &mut Vec<Message>,
    | #[trigger]
        call_requires(callback, (widget, event, commands, user_data, messages))
}

/// What a callback of the application leaves of all it was handed.
pub struct Left<Message, T> {
    pub widget: Widget,
    pub commands: Commands,
    pub user_data: T,
    pub messages: Vec<Message>,
}

/// Calls `callback`, a callback of the framework, on `widget` and `event`,
/// and says what it left of the widget.
pub fn run_internal<I: Fn(&mut Widget, &CallBackEvent)>(
    callback: &I,
    widget: &mut Widget,
    event: &CallBackEvent,
) -> (left: Ghost<Widget>)
    requires
        total_internal(*callback),
    ensures
        left@ == *final(widget),
        exists|handed: &mut Widget|
            *handed == *old(widget) && *final(handed) == *final(widget) && #[trigger] call_ensures(
                *callback,
                (handed, event),
                (),
            ),
{
    callback(widget, event);
    Ghost(*widget)
}

/// Calls `callback`, a callback of the application, on `widget`, `event`,
/// the commands that wait, the application's data and the messages, and
/// says what it left of them.
pub fn run_user<
    Message,
    T,
    U: Fn(&mut Widget, &CallBackEvent, &mut Commands, &mut T, &mut Vec<Message>),
>(
    callback: &U,
    widget: &mut Widget,
    event: &CallBackEvent,
    commands: &mut Commands,
    user_data: &mut T,
    messages: &mut Vec<Message>,
) -> (left: Ghost<Left<Message, T>>)
    requires
        total_user(*callback),
    ensures
        left@.widget == *final(widget),
        left@.commands == *final(commands),
        left@.user_data == *final(user_data),
        left@.messages == *final(messages),
        exists|
            handed: &mut Widget,
            waiting: &mut Commands,
            data: &mut T,
            added: &mut Vec<Message>,
        |
            {
                &&& *handed == *old(widget)
                &&& *final(handed) == *final(widget)
                &&& *waiting == *old(commands)
                &&& *final(waiting) == *final(commands)
                &&& *data == *old(user_data)
                &&& *final(data) == *final(user_data)
                &&& *added == *old(messages)
                &&& *final(added) == *final(messages)
                &&& #[trigger] call_ensures(
                    *callback,
                    (handed, event, waiting, data, added),
                    (),
                )
            },
{
    callback(widget, event, commands, user_data, messages);
    Ghost(
        Left {
            widget: *widget,
            commands: *commands,
            user_data: *user_data,
            messages: *messages,
        },
    )
}

/// All that the callbacks of one event can change: the router, the commands
/// that wait, the application's own data and the messages added so far.
pub struct Scene<Message, T> {
    pub router: RouterView,
    pub pending: Seq<Command>,
    pub user_data: T,
    pub messages: Seq<Message>,
}

/// Whether `callback`, a callback of the framework, called on a widget that
/// is `before` and on `event`, can leave the widget as `after`.
pub open spec fn internal_ran<I: Fn(&mut Widget, &CallBackEvent)>(
    callback: I,
    before: WidgetView,
    event: CallBackEvent,
    after: WidgetView,
) -> bool {
    exists|widget: &mut Widget, left: Widget|
        widget@ == before && left@ == after && #[trigger] call_ensures(
            run_internal::<I>,
            (&callback, widget, &event),
            Ghost(left),
        )
}

/// Whether `callback`, a callback of the application, called on a widget
/// that is `widget_before`, on `event`, and on the commands, the data and
/// the messages of `before`, can leave the widget as `widget_after` and the
/// commands, the data and the messages as in `after`.
pub open spec fn user_ran<
    Message,
    T,
    U: Fn(&mut Widget, &CallBackEvent, &mut Commands, &mut T, &mut Vec<Message>),
>(
    callback: U,
    event: CallBackEvent,
    widget_before: WidgetView,
    before: Scene<Message, T>,
    widget_after: WidgetView,
    after: Scene<Message, T>,
) -> bool {
    exists|
        widget: &mut Widget,
        commands: &mut Commands,
        user_data: &mut T,
        messages: &mut Vec<Message>,
        left: Left<Message, T>,
    |
        {
            &&& widget@ == widget_before
            &&& commands@ == before.pending
            &&& *user_data == before.user_data
            &&& messages@ == before.messages
            &&& left.widget@ == widget_after
            &&& left.commands@ == after.pending
            &&& left.user_data == after.user_data
            &&& left.messages@ == after.messages
            &&& #[trigger] call_ensures(
                run_user::<Message, T, U>,
                (&callback, widget, &event, commands, user_data, messages),
                Ghost(left),
            )
        }
}

/// Whether running the callbacks for `due` can lead from `before` to
/// `after`. Nothing runs and nothing changes if the widget is no more.
/// Otherwise the framework's callback for the widget's kind and the event's
/// kind runs on the widget, if one is registered; then the application's,
/// registered for the same kind, runs on what the first left of the widget,
/// if one is registered. Nothing changes but the widget and what the
/// application's callback was handed.
pub open spec fn fired<
    Message,
    T,
    I: Fn(&mut Widget, &CallBackEvent),
    U: Fn(&mut Widget, &CallBackEvent, &mut Commands, &mut T, &mut Vec<Message>),
>(
    internal: Map<u64, I>,
    user: Map<u64, U>,
    before: Scene<Message, T>,
    due: Dispatch,
    after: Scene<Message, T>,
) -> bool {
    let target = due.target;
    let code = before.router.code_for(due);
    let handed = before.router.nodes[target].widget;
    let left = after.router.nodes[target].widget;
    if !before.router.nodes.contains_key(target) {
        after == before
    } else if internal.contains_key(code) && user.contains_key(code) {
        &&& after.router == before.router.with_widget(target, left)
        &&& exists|mid: WidgetView| #[trigger]
            internal_ran(internal[code], handed, due.event, mid) && user_ran(
                user[code],
                due.event,
                mid,
                before,
                left,
                after,
            )
    } else if internal.contains_key(code) {
        &&& after.router == before.router.with_widget(target, left)
        &&& internal_ran(internal[code], handed, due.event, left)
        &&& after.pending == before.pending
        &&& after.user_data == before.user_data
        &&& after.messages == before.messages
    } else if user.contains_key(code) {
        &&& after.router == before.router.with_widget(target, left)
        &&& user_ran(user[code], due.event, handed, before, left, after)
    } else {
        after == before
    }
}

/// Whether running the callbacks for the entries of `due`, one after the
/// other, can lead from `before` to `after`.
pub open spec fn dispatched<
    Message,
    T,
    I: Fn(&mut Widget, &CallBackEvent),
    U: Fn(&mut Widget, &CallBackEvent, &mut Commands, &mut T, &mut Vec<Message>),
>(
    internal: Map<u64, I>,
    user: Map<u64, U>,
    before: Scene<Message, T>,
    due: Seq<Dispatch>,
    after: Scene<Message, T>,
) -> bool
    decreases due.len(),
{
    if due.len() == 0 {
        after == before
    } else {
        exists|mid: Scene<Message, T>|
            dispatched(internal, user, before, due.drop_last(), mid) && #[trigger] fired(
                internal,
                user,
                mid,
                due.last(),
                after,
            )
    }
}

/// Running the callbacks for a list and then for one entry more is running
/// them for the list with that entry at its end.
pub proof fn lemma_dispatched_step<
    Message,
    T,
    I: Fn(&mut Widget, &CallBackEvent),
    U: Fn(&mut Widget, &CallBackEvent, &mut Commands, &mut T, &mut Vec<Message>),
>(
    internal: Map<u64, I>,
    user: Map<u64, U>,
    before: Scene<Message, T>,
    due: Seq<Dispatch>,
    mid: Scene<Message, T>,
    after: Scene<Message, T>,
)
    requires
        due.len() > 0,
        dispatched(internal, user, before, due.drop_last(), mid),
        fired(internal, user, mid, due.last(), after),
    ensures
        dispatched(internal, user, before, due, after),
{
}

/// Whether handling `event` can lead from `before` to `after`: the event is
/// routed; the callbacks that are due by that run; the commands that wait
/// then are carried out and none waits any more; and the callbacks that are
/// due by that run.
pub open spec fn handled<
    Message,
    T,
    I: Fn(&mut Widget, &CallBackEvent),
    U: Fn(&mut Widget, &CallBackEvent, &mut Commands, &mut T, &mut Vec<Message>),
>(
    internal: Map<u64, I>,
    user: Map<u64, U>,
    before: Scene<Message, T>,
    event: SystemEvent,
    after: Scene<Message, T>,
) -> bool {
    let routed = before.router.handle(event);
    exists|called: Scene<Message, T>| #[trigger]
        dispatched(
            internal,
            user,
            Scene { router: routed.state, ..before },
            routed.due,
            called,
        ) && dispatched(
            internal,
            user,
            Scene {
                router: called.router.apply_commands(called.pending).state,
                pending: Seq::empty(),
                ..called
            },
            called.router.apply_commands(called.pending).due,
            after,
        )
}

/// Where no callback is registered, running the callbacks that are due
/// changes nothing.
pub proof fn law_dispatched_without_callbacks<
    Message,
    T,
    I: Fn(&mut Widget, &CallBackEvent),
    U: Fn(&mut Widget, &CallBackEvent, &mut Commands, &mut T, &mut Vec<Message>),
>(
    internal: Map<u64, I>,
    user: Map<u64, U>,
    before: Scene<Message, T>,
    due: Seq<Dispatch>,
    after: Scene<Message, T>,
)
    requires
        forall|code: u64| !internal.contains_key(code),
        forall|code: u64| !user.contains_key(code),
        dispatched(internal, user, before, due, after),
    ensures
        after == before,
    decreases due.len(),
{
    if due.len() > 0 {
        let mid = choose|mid: Scene<Message, T>|
            dispatched(internal, user, before, due.drop_last(), mid) && #[trigger] fired(
                internal,
                user,
                mid,
                due.last(),
                after,
            );
        law_dispatched_without_callbacks(internal, user, before, due.drop_last(), mid);
    }
}

/// Where no callback is registered, handling an event is routing it and
/// carrying out the commands that wait: the state is what
/// [`RouterView::handle`] and [`RouterView::apply_commands`] say, no command
/// waits, and the application's data and the messages are as they were.
pub proof fn law_handled_without_callbacks<
    Message,
    T,
    I: Fn(&mut Widget, &CallBackEvent),
    U: Fn(&mut Widget, &CallBackEvent, &mut Commands, &mut T, &mut Vec<Message>),
>(
    internal: Map<u64, I>,
    user: Map<u64, U>,
    before: Scene<Message, T>,
    event: SystemEvent,
    after: Scene<Message, T>,
)
    requires
        forall|code: u64| !internal.contains_key(code),
        forall|code: u64| !user.contains_key(code),
        handled(internal, user, before, event, after),
    ensures
        after == (Scene {
            router: before.router.handle(event).state.apply_commands(before.pending).state,
            pending: Seq::empty(),
            ..before
        }),
{
    let routed = before.router.handle(event);
    let called = choose|called: Scene<Message, T>| #[trigger]
        dispatched(
            internal,
            user,
            Scene { router: routed.state, ..before },
            routed.due,
            called,
        ) && dispatched(
            internal,
            user,
            Scene {
                router: called.router.apply_commands(called.pending).state,
                pending: Seq::empty(),
                ..called
            },
            called.router.apply_commands(called.pending).due,
            after,
        );
    law_dispatched_without_callbacks(
        internal,
        user,
        Scene { router: routed.state, ..before },
        routed.due,
        called,
    );
    law_dispatched_without_callbacks(
        internal,
        user,
        Scene {
            router: called.router.apply_commands(called.pending).state,
            pending: Seq::empty(),
            ..called
        },
        called.router.apply_commands(called.pending).due,
        after,
    );
}

/// The callbacks of an event leave the tree, the stacking order and the
/// pointer's state as they are: they change nothing of the router but what
/// the widgets themselves hold.
pub proof fn law_dispatched_keeps_tree<
    Message,
    T,
    I: Fn(&mut Widget, &CallBackEvent),
    U: Fn(&mut Widget, &CallBackEvent, &mut Commands, &mut T, &mut Vec<Message>),
>(
    internal: Map<u64, I>,
    user: Map<u64, U>,
    before: Scene<Message, T>,
    due: Seq<Dispatch>,
    after: Scene<Message, T>,
)
    requires
        dispatched(internal, user, before, due, after),
    ensures
        before.router.same_tree(after.router),
    decreases due.len(),
{
    before.router.lemma_same_tree(before.router, before.router);
    if due.len() > 0 {
        let mid = choose|mid: Scene<Message, T>|
            dispatched(internal, user, before, due.drop_last(), mid) && #[trigger] fired(
                internal,
                user,
                mid,
                due.last(),
                after,
            );
        law_dispatched_keeps_tree(internal, user, before, due.drop_last(), mid);
        mid.router.lemma_same_tree(mid.router, mid.router);
        if mid.router.nodes.contains_key(due.last().target) {
            mid.router.lemma_same_tree_widget(due.last().target);
        }
        before.router.lemma_same_tree(mid.router, after.router);
    }
}

/// The router with its two tables of callbacks: `I` is the type of the
/// framework's callbacks, `U` that of the application's, which also receive
/// the commands, the application's own data of type `T`, and the list of
/// messages of type `Message` that they may add to.
pub struct UI<Message, T, I, U> {
    pub(crate) widgets: Widgets,
    pub(crate) callbacks: HashMap<u64, I>,
    pub(crate) user_callbacks: HashMap<u64, U>,
    pub(crate) commands: Commands,
    pub(crate) marker: PhantomData<(Message, T)>,
}

impl<
    Message,
    T,
    I: Fn(&mut Widget, &CallBackEvent),
    U: Fn(&mut Widget, &CallBackEvent, &mut Commands, &mut T, &mut Vec<Message>),
> UI<Message, T, I, U> {
    /// The router is well formed and every callback can be called on
    /// whatever it is handed.
    pub closed spec fn wf(&self) -> bool {
        &&& self.widgets.wf()
        &&& forall|code: u64| #[trigger]
            self.callbacks@.contains_key(code) ==> total_internal(self.callbacks@[code])
        &&& forall|code: u64| #[trigger]
            self.user_callbacks@.contains_key(code) ==> total_user(self.user_callbacks@[code])
    }

    /// The state of the router.
    pub closed spec fn router(&self) -> RouterView {
        self.widgets@
    }

    /// The framework's callbacks, by the number of their key.
    pub closed spec fn internal_table(&self) -> Map<u64, I> {
        self.callbacks@
    }

    /// The application's callbacks, by the number of their key.
    pub closed spec fn user_table(&self) -> Map<u64, U> {
        self.user_callbacks@
    }

    /// The commands that wait to be carried out.
    pub closed spec fn pending(&self) -> Seq<Command> {
        self.commands@
    }

    /// The generation that the next widget gets: every widget has a smaller
    /// one, and it grows by one with every widget that is stored.
    pub closed spec fn next_generation(&self) -> u64 {
        self.widgets.next_generation()
    }

    /// Whether another widget can be stored: the generations have not run
    /// out.
    pub open spec fn has_room(&self) -> bool {
        self.next_generation() < u64::MAX
    }

    /// The router and the commands that wait, together with the
    /// application's data and the messages.
    pub open spec fn scene(&self, user_data: T, messages: Seq<Message>) -> Scene<Message, T> {
        Scene { router: self.router(), pending: self.pending(), user_data, messages }
    }

    /// Where this value is well formed, the state of its router is: every
    /// law that holds of the well-formed states holds of it.
    pub proof fn law_wf(&self)
        requires
            self.wf(),
        ensures
            self.router().wf(),
    {
        self.widgets.law_wf();
    }

    /// A router without widgets and without callbacks.
    pub fn new() -> (ui: Self)
        ensures
            ui.wf(),
            ui.next_generation() == 1,
            ui.router().nodes == Map::<Handle, NodeView>::empty(),
            ui.router().zlist == Seq::<Handle>::empty(),
            ui.router().hidden == Seq::<Handle>::empty(),
            ui.router().focused is None,
            ui.router().over is None,
            ui.router().clicked is None,
            ui.router().mouse_clicked == (0i32, 0i32),
            ui.router().mouse_pos == (0i32, 0i32),
            ui.router().new_mouse_pos == (0i32, 0i32),
            !ui.router().moving,
            ui.router().button == MouseButton::Left,
            ui.router().modifier.bits == 0,
            ui.internal_table() == Map::<u64, I>::empty(),
            ui.user_table() == Map::<u64, U>::empty(),
            ui.pending() == Seq::<Command>::empty(),
    {
        UI {
            widgets: Widgets::new(),
            callbacks: HashMap::with_capacity(100),
            user_callbacks: HashMap::with_capacity(100),
            commands: Commands::new(),
            marker: PhantomData,
        }
    }

    /// The router, to look at it.
    pub fn widgets(&self) -> (widgets: &Widgets)
        ensures
            widgets@ == self.router(),
            self.wf() ==> widgets.wf(),
            widgets.next_generation() == self.next_generation(),
    {
        &self.widgets
    }

    /// The router, to change it. Whatever is done to it through its own
    /// functions keeps it well formed, and by that this value too.
    pub fn widgets_mut(&mut self) -> (widgets: &mut Widgets)
        requires
            old(self).wf(),
        ensures
            widgets@ == old(self).router(),
            widgets.wf(),
            widgets.next_generation() == old(self).next_generation(),
            final(self).router() == final(widgets)@,
            final(self).next_generation() == final(widgets).next_generation(),
            final(self).internal_table() == old(self).internal_table(),
            final(self).user_table() == old(self).user_table(),
            final(self).pending() == old(self).pending(),
            final(widgets).wf() ==> final(self).wf(),
    {
        &mut self.widgets
    }

    /// Removes every widget and every callback: the router is as
    /// [`RouterView::cleared`] says, and both tables are empty. The commands
    /// that wait stay; those that name a widget that is no more change
    /// nothing when they are carried out.
    pub fn clear_widgets(&mut self)
        requires
            old(self).wf(),
        ensures
            final(self).wf(),
            final(self).router() == old(self).router().cleared(),
            final(self).internal_table() == Map::<u64, I>::empty(),
            final(self).user_table() == Map::<u64, U>::empty(),
            final(self).pending() == old(self).pending(),
            final(self).next_generation() == old(self).next_generation(),
    {
        self.widgets.clear_widgets();
        self.callbacks.clear();
        self.user_callbacks.clear();
    }

    /// Registers `callback` as the framework's callback for `key`, in place
    /// of the one that was registered for it, which is returned.
    pub fn register_internal(&mut self, key: CallBackKey, callback: I) -> (previous: Option<I>)
        requires
            old(self).wf(),
            total_internal(callback),
        ensures
            final(self).wf(),
            final(self).internal_table() == old(self).internal_table().insert(
                key.code_of(),
                callback,
            ),
            final(self).user_table() == old(self).user_table(),
            final(self).router() == old(self).router(),
            final(self).next_generation() == old(self).next_generation(),
            final(self).pending() == old(self).pending(),
            previous == if old(self).internal_table().contains_key(key.code_of()) {
                Some(old(self).internal_table()[key.code_of()])
            } else {
                None
            },
    {
        self.callbacks.insert(key.code(), callback)
    }

    /// Registers `callback` as the application's callback for `key`, in place
    /// of the one that was registered for it, which is returned.
    pub fn register_user(&mut self, key: CallBackKey, callback: U) -> (previous: Option<U>)
        requires
            old(self).wf(),
            total_user(callback),
        ensures
            final(self).wf(),
            final(self).user_table() == old(self).user_table().insert(key.code_of(), callback),
            final(self).internal_table() == old(self).internal_table(),
            final(self).router() == old(self).router(),
            final(self).next_generation() == old(self).next_generation(),
            final(self).pending() == old(self).pending(),
            previous == if old(self).user_table().contains_key(key.code_of()) {
                Some(old(self).user_table()[key.code_of()])
            } else {
                None
            },
    {
        self.user_callbacks.insert(key.code(), callback)
    }

    /// Runs the callbacks for one entry of the list of those that are due:
    /// see [`fired`]. The tree, the stacking order and the pointer's state
    /// stay as they are.
    pub fn fire(&mut self, due: Dispatch, user_data: &mut T, messages: &mut Vec<Message>)
        requires
            old(self).wf(),
        ensures
            final(self).wf(),
            fired(
                old(self).internal_table(),
                old(self).user_table(),
                old(self).scene(*old(user_data), old(messages)@),
                due,
                final(self).scene(*final(user_data), final(messages)@),
            ),
            old(self).router().same_tree(final(self).router()),
            final(self).internal_table() == old(self).internal_table(),
            final(self).user_table() == old(self).user_table(),
            final(self).next_generation() == old(self).next_generation(),
    {
        let code = match self.widgets.get(due.target) {
            Some(node) => node.widget.callback_key(due.event.kind()).code(),
            None => {
                proof {
                    self.router().lemma_same_tree(self.router(), self.router());
                }
                return ;
            },
        };
        let ghost start = self.widgets@;
        let ghost first = start.nodes[due.target].widget;
        proof {
            start.lemma_same_tree(start, start);
            start.lemma_same_tree_widget(due.target);
        }
        match self.callbacks.get(&code) {
            Some(callback) => {
                match self.widgets.get_mut(due.target) {
                    Some(widget) => {
                        let run = run_internal::<I>;
                        let _ = run(callback, widget, &due.event);
                    },
                    None => {},
                }
            },
            None => {},
        }
        let ghost mid = self.widgets@;
        let ghost second = mid.nodes[due.target].widget;
        proof {
            mid.lemma_same_tree(mid, mid);
            mid.lemma_same_tree_widget(due.target);
            if start.nodes.contains_key(due.target) && self.callbacks@.contains_key(code) {
                assert(internal_ran(self.callbacks@[code], first, due.event, second));
            }
        }
        let ghost before = self.scene(*user_data, messages@);
        match self.user_callbacks.get(&code) {
            Some(callback) => {
                match self.widgets.get_mut(due.target) {
                    Some(widget) => {
                        let run = run_user::<Message, T, U>;
                        let _ = run(
                            callback,
                            widget,
                            &due.event,
                            &mut self.commands,
                            user_data,
                            messages,
                        );
                    },
                    None => {},
                }
            },
            None => {},
        }
        proof {
            let last = self.widgets@;
            let after = self.scene(*user_data, messages@);
            start.lemma_same_tree(mid, last);
            assert(last.nodes =~= start.with_widget(
                due.target,
                last.nodes[due.target].widget,
            ).nodes);
            if self.user_callbacks@.contains_key(code) {
                assert(user_ran(
                    self.user_callbacks@[code],
                    due.event,
                    second,
                    before,
                    last.nodes[due.target].widget,
                    after,
                ));
            }
        }
    }

    /// Runs the callbacks for every entry of `due`, in their order: see
    /// [`dispatched`]. The tree, the stacking order and the pointer's state
    /// stay as they are.
    pub fn dispatch(&mut self, due: &Vec<Dispatch>, user_data: &mut T, messages: &mut Vec<Message>)
        requires
            old(self).wf(),
        ensures
            final(self).wf(),
            dispatched(
                old(self).internal_table(),
                old(self).user_table(),
                old(self).scene(*old(user_data), old(messages)@),
                due@,
                final(self).scene(*final(user_data), final(messages)@),
            ),
            old(self).router().same_tree(final(self).router()),
            final(self).internal_table() == old(self).internal_table(),
            final(self).user_table() == old(self).user_table(),
            final(self).next_generation() == old(self).next_generation(),
    {
        let ghost start = self.scene(*user_data, messages@);
        proof {
            self.router().lemma_same_tree(self.router(), self.router());
            assert(due@.take(0).len() == 0);
        }
        let mut i: usize = 0;
        while i < due.len()
            invariant
                self.wf(),
                i <= due@.len(),
                old(self).router().same_tree(self.router()),
                self.internal_table() == old(self).internal_table(),
                self.user_table() == old(self).user_table(),
                self.next_generation() == old(self).next_generation(),
                dispatched(
                    old(self).internal_table(),
                    old(self).user_table(),
                    start,
                    due@.take(i as int),
                    self.scene(*user_data, messages@),
                ),
            decreases due@.len() - i,
        {
            let ghost before = self.router();
            let ghost mid = self.scene(*user_data, messages@);
            self.fire(due[i], user_data, messages);
            proof {
                old(self).router().lemma_same_tree(before, self.router());
                let upto = due@.take(i + 1);
                assert(upto.drop_last() =~= due@.take(i as int));
                assert(upto.last() == due@[i as int]);
                lemma_dispatched_step(
                    old(self).internal_table(),
                    old(self).user_table(),
                    start,
                    upto,
                    mid,
                    self.scene(*user_data, messages@),
                );
            }
            i += 1;
        }
        proof {
            assert(due@.take(due@.len() as int) =~= due@);
        }
    }

    /// Carries out the commands that callbacks have asked for, in the order
    /// in which they asked, and returns the callbacks that are due by that:
    /// see [`RouterView::apply_commands`]. No command waits afterwards.
    pub fn run_commands(&mut self) -> (due: Vec<Dispatch>)
        requires
            old(self).wf(),
        ensures
            final(self).wf(),
            final(self).router() == old(self).router().apply_commands(old(self).pending()).state,
            due@ == old(self).router().apply_commands(old(self).pending()).due,
            final(self).pending() == Seq::<Command>::empty(),
            final(self).internal_table() == old(self).internal_table(),
            final(self).user_table() == old(self).user_table(),
            final(self).next_generation() == old(self).next_generation(),
    {
        let batch = self.commands.take();
        self.widgets.apply_commands(&batch)
    }

    /// Handles one event of the input: see [`handled`]. The event is routed,
    /// which gives the new state and the callbacks that are due, exactly as
    /// [`RouterView::handle`] says. The callbacks run in their order; what
    /// they ask for is carried out when all have run; and the callbacks that
    /// are due by that run last. Returns by how much the window is to be
    /// moved, if it is being dragged, and the messages that the
    /// application's callbacks added.
    pub fn handle_events(&mut self, event: &SystemEvent, user_data: &mut T) -> (result: (
        Option<WindowMove>,
        Vec<Message>,
    ))
        requires
            old(self).wf(),
        ensures
            final(self).wf(),
            result.0 == old(self).router().handle(*event).window,
            handled(
                old(self).internal_table(),
                old(self).user_table(),
                old(self).scene(*old(user_data), Seq::empty()),
                *event,
                final(self).scene(*final(user_data), result.1@),
            ),
            final(self).internal_table() == old(self).internal_table(),
            final(self).user_table() == old(self).user_table(),
            final(self).next_generation() == old(self).next_generation(),
    {
        let (window, due) = self.widgets.handle_event(event);
        let mut messages: Vec<Message> = Vec::new();
        self.dispatch(&due, user_data, &mut messages);
        let ghost called = self.scene(*user_data, messages@);
        let more = self.run_commands();
        self.dispatch(&more, user_data, &mut messages);
        proof {
            let routed = old(self).router().handle(*event);
            let start = old(self).scene(*old(user_data), Seq::empty());
            assert(dispatched(
                old(self).internal_table(),
                old(self).user_table(),
                Scene { router: routed.state, ..start },
                routed.due,
                called,
            ));
        }
        (window, messages)
    }

    /// Handles a button that went down or up: see [`Self::handle_events`].
    /// Returns the messages that the application's callbacks added.
    pub fn event_mouse_button(
        &mut self,
        button: MouseButton,
        pressed: bool,
        user_data: &mut T,
    ) -> (messages: Vec<Message>)
        requires
            old(self).wf(),
        ensures
            final(self).wf(),
            handled(
                old(self).internal_table(),
                old(self).user_table(),
                old(self).scene(*old(user_data), Seq::empty()),
                SystemEvent::MouseButton { button, pressed },
                final(self).scene(*final(user_data), messages@),
            ),
            final(self).internal_table() == old(self).internal_table(),
            final(self).user_table() == old(self).user_table(),
            final(self).next_generation() == old(self).next_generation(),
    {
        let event = SystemEvent::MouseButton { button, pressed };
        let (_, messages) = self.handle_events(&event, user_data);
        messages
    }

    /// Handles a move of the pointer: see [`Self::handle_events`]. Returns by
    /// how much the window is to be moved, if it is being dragged, and the
    /// messages that the application's callbacks added.
    pub fn event_mouse_position(
        &mut self,
        position: [i32; 2],
        screensize: [i32; 2],
        user_data: &mut T,
    ) -> (result: (Option<WindowMove>, Vec<Message>))
        requires
            old(self).wf(),
        ensures
            final(self).wf(),
            result.0 == if old(self).router().moving {
                Some(old(self).router().window_move((position[0], position[1])))
            } else {
                None
            },
            handled(
                old(self).internal_table(),
                old(self).user_table(),
                old(self).scene(*old(user_data), Seq::empty()),
                SystemEvent::MouseMoved { position, screensize },
                final(self).scene(*final(user_data), result.1@),
            ),
            final(self).internal_table() == old(self).internal_table(),
            final(self).user_table() == old(self).user_table(),
            final(self).next_generation() == old(self).next_generation(),
    {
        let event = SystemEvent::MouseMoved { position, screensize };
        self.handle_events(&event, user_data)
    }

    /// Notes which modifier keys are held down. No callback runs.
    pub fn event_modifiers(&mut self, modifier: ModifiersState)
        requires
            old(self).wf(),
        ensures
            final(self).wf(),
            final(self).router() == (RouterView { modifier, ..old(self).router() }),
            final(self).internal_table() == old(self).internal_table(),
            final(self).user_table() == old(self).user_table(),
            final(self).pending() == old(self).pending(),
            final(self).next_generation() == old(self).next_generation(),
    {
        self.widgets.event_modifiers(modifier);
    }

    /// The widgets that are to be drawn, in the order in which they are to
    /// be drawn: the stacking order.
    pub fn event_draw(&self) -> (order: Vec<Handle>)
        ensures
            order@ == self.router().zlist,
    {
        self.widgets.draw_order()
    }
}

} // verus!
