//! The first start of a device: a name, an account, a model, and then the first session.

use vstd::prelude::*;
use crate::agent::control::OobeStepKind;
use crate::json;
use crate::json::Json;
use crate::json::JsonView;
use crate::text;

verus! {

/// The name of a step on the wire.
pub open spec fn step_name(step: OobeStepKind) -> Seq<char> {
    match step {
        OobeStepKind::Welcome => "welcome"@,
        OobeStepKind::AccountSetup => "account_setup"@,
        OobeStepKind::ModelDownload => "model_download"@,
        OobeStepKind::Done => "done"@,
    }
}

/// What the user is told at a step.
pub open spec fn step_message(step: OobeStepKind) -> Seq<char> {
    match step {
        OobeStepKind::Welcome =>
            "Welcome to Kiki OS! Let's set up your device. Enter a name for this device."@,
        OobeStepKind::AccountSetup =>
            "Link your Kiki account. Open the URL shown in your browser to authorize this device."@,
        OobeStepKind::ModelDownload =>
            "Downloading the default AI model in the background. This may take a few minutes."@,
        OobeStepKind::Done => "Setup complete! Creating your first desktop session."@,
    }
}

/// What the shell is told at a step.
pub open spec fn step_event(step: OobeStepKind) -> JsonView {
    JsonView::Object(
        Map::empty().insert("type"@, JsonView::Text("oobe_step"@)).insert(
            "step"@,
            JsonView::Text(step_name(step)),
        ).insert("message"@, JsonView::Text(step_message(step))),
    )
}

/// What the shell is told at the end.
pub open spec fn complete_event() -> JsonView {
    JsonView::Object(Map::empty().insert("type"@, JsonView::Text("oobe_complete"@)))
}

/// What is to be done.
pub enum OobeAction {
    /// To tell the shell.
    Tell(String),
    /// To fetch the default model beside everything else.
    FetchModel,
}

/// What such an action is.
#[allow(inconsistent_fields)]
#[verifier::ext_equal]
pub enum OobeActionView {
    Tell(JsonView),
    FetchModel,
}

impl OobeAction {
    /// Whether an action is this one: what is told is told as the text of its document.
    pub open spec fn is(self, view: OobeActionView) -> bool {
        match (self, view) {
            (OobeAction::Tell(line), OobeActionView::Tell(v)) => line@ == json::written(v),
            (OobeAction::FetchModel, OobeActionView::FetchModel) => true,
            _ => false,
        }
    }
}

/// Whether actions are these ones.
pub open spec fn are(actions: Seq<OobeAction>, views: Seq<OobeActionView>) -> bool {
    &&& actions.len() == views.len()
    &&& forall|i: int| 0 <= i < actions.len() ==> (#[trigger] actions[i]).is(views[i])
}

/// What an input is for: the step that it names, and its value.
pub struct OobeInputMsg {
    pub step: String,
    pub value: Json,
}

/// What happened.
pub enum OobeEvent {
    Input(OobeInputMsg),
    /// No input will come any more.
    Closed,
}

/// How far the first start has come.
pub struct OobeState {
    pub step: OobeStepKind,
    pub completed: bool,
    /// The name of the device, once it is known.
    pub device_name: Option<String>,
}

/// What such a state is.
#[verifier::ext_equal]
pub struct OobeView {
    pub step: OobeStepKind,
    pub completed: bool,
    pub device_name: Option<Seq<char>>,
}

impl View for OobeState {
    type V = OobeView;

    open spec fn view(&self) -> OobeView {
        OobeView {
            step: self.step,
            completed: self.completed,
            device_name: text::opt_view(self.device_name),
        }
    }
}

/// The value of an input for a step: what the user gave, or nothing where no input comes any
/// more. An input for another step is none.
pub open spec fn value_for(event: OobeEvent, step: OobeStepKind) -> Option<JsonView> {
    match event {
        OobeEvent::Input(msg) => if msg.step@ == step_name(step) {
            Some(msg.value@)
        } else {
            None
        },
        OobeEvent::Closed => Some(json::empty_object()),
    }
}

/// The name of the device in an input.
pub open spec fn name_in(value: JsonView) -> Seq<char> {
    match value.text_field("device_name"@) {
        Some(name) => name,
        None => "kiki-device"@,
    }
}

/// What an event does to the first start, and what is to be done. Only an input for the step
/// that waits for one counts. Fetching the model waits for nobody.
pub open spec fn oobe_step(s: OobeView, event: OobeEvent) -> (OobeView, Seq<OobeActionView>) {
    match s.step {
        OobeStepKind::Welcome => match value_for(event, OobeStepKind::Welcome) {
            Some(value) => (
                OobeView {
                    step: OobeStepKind::AccountSetup,
                    completed: false,
                    device_name: Some(name_in(value)),
                },
                seq![OobeActionView::Tell(step_event(OobeStepKind::AccountSetup))],
            ),
            None => (s, Seq::empty()),
        },
        OobeStepKind::AccountSetup => match value_for(event, OobeStepKind::AccountSetup) {
            Some(value) => (
                OobeView { step: OobeStepKind::Done, completed: true, ..s },
                seq![
                    OobeActionView::Tell(step_event(OobeStepKind::ModelDownload)),
                    OobeActionView::FetchModel,
                    OobeActionView::Tell(step_event(OobeStepKind::Done)),
                    OobeActionView::Tell(complete_event()),
                ],
            ),
            None => (s, Seq::empty()),
        },
        _ => (s, Seq::empty()),
    }
}

fn tell_step(step: OobeStepKind) -> (action: OobeAction)
    ensures
        action.is(OobeActionView::Tell(step_event(step))),
{
    let (name, message) = match step {
        OobeStepKind::Welcome => (
            "welcome",
            "Welcome to Kiki OS! Let's set up your device. Enter a name for this device.",
        ),
        OobeStepKind::AccountSetup => (
            "account_setup",
            "Link your Kiki account. Open the URL shown in your browser to authorize this device.",
        ),
        OobeStepKind::ModelDownload => (
            "model_download",
            "Downloading the default AI model in the background. This may take a few minutes.",
        ),
        OobeStepKind::Done => ("done", "Setup complete! Creating your first desktop session."),
    };
    let v = Json::object().with("type", Json::of_text("oobe_step")).with(
        "step",
        Json::of_text(name),
    ).with("message", Json::of_text(message));
    OobeAction::Tell(json::write(&v))
}

fn tell_complete() -> (action: OobeAction)
    ensures
        action.is(OobeActionView::Tell(complete_event())),
{
    let v = Json::object().with("type", Json::of_text("oobe_complete"));
    OobeAction::Tell(json::write(&v))
}

fn event_value(event: &OobeEvent, name: &str) -> (value: Option<Json>)
    ensures
        (match value {
            Some(v) => Some(v@),
            None => None,
        }) == (match *event {
            OobeEvent::Input(msg) => if msg.step@ == name@ {
                Some(msg.value@)
            } else {
                None
            },
            OobeEvent::Closed => Some(json::empty_object()),
        }),
{
    match event {
        OobeEvent::Input(msg) => if text::same_text(msg.step.as_str(), name) {
            Some(msg.value.copy())
        } else {
            None
        },
        OobeEvent::Closed => Some(Json::object()),
    }
}

impl OobeState {
    /// Whether the first start is needed: there are no sessions yet, and it is not to be
    /// skipped.
    pub fn needed(sessions_exist: bool, skip: bool) -> (r: bool)
        ensures
            r == (!sessions_exist && !skip),
    {
        !sessions_exist && !skip
    }

    /// Begins the first start; none where it is to be skipped.
    pub fn begin(skip: bool) -> (result: Option<(OobeState, Vec<OobeAction>)>)
        ensures
            match result {
                Some((s, actions)) => !skip && s@ == (OobeView {
                    step: OobeStepKind::Welcome,
                    completed: false,
                    device_name: None,
                }) && are(
                    actions@,
                    seq![OobeActionView::Tell(step_event(OobeStepKind::Welcome))],
                ),
                None => skip,
            },
    {
        if skip {
            return None;
        }
        let mut actions: Vec<OobeAction> = Vec::new();
        actions.push(tell_step(OobeStepKind::Welcome));
        let state = OobeState {
            step: OobeStepKind::Welcome,
            completed: false,
            device_name: None,
        };
        Some((state, actions))
    }

    /// Goes on with the first start.
    pub fn step(&mut self, event: OobeEvent) -> (actions: Vec<OobeAction>)
        ensures
            final(self)@ == oobe_step(old(self)@, event).0,
            are(actions@, oobe_step(old(self)@, event).1),
    {
        let mut actions: Vec<OobeAction> = Vec::new();
        match self.step {
            OobeStepKind::Welcome => {
                if let Some(value) = event_value(&event, "welcome") {
                    let name = match value.get_text("device_name") {
                        Some(name) => name,
                        None => "kiki-device".to_string(),
                    };
                    self.step = OobeStepKind::AccountSetup;
                    self.completed = false;
                    self.device_name = Some(name);
                    actions.push(tell_step(OobeStepKind::AccountSetup));
                }
            },
            OobeStepKind::AccountSetup => {
                if let Some(_) = event_value(&event, "account_setup") {
                    self.step = OobeStepKind::Done;
                    self.completed = true;
                    actions.push(tell_step(OobeStepKind::ModelDownload));
                    actions.push(OobeAction::FetchModel);
                    actions.push(tell_step(OobeStepKind::Done));
                    actions.push(tell_complete());
                }
            },
            _ => {},
        }
        actions
    }

    /// Whether the first start is over.
    pub fn is_completed(&self) -> (r: bool)
        ensures
            r == self@.completed,
    {
        self.completed
    }
}

/// The model that is fetched: what the setting says, or a small one.
pub fn default_model(setting: Option<&str>) -> (model: String)
    ensures
        model@ == (match setting {
            Some(s) => s@,
            None => "llama3.2:3b"@,
        }),
{
    match setting {
        Some(s) => s.to_string(),
        None => "llama3.2:3b".to_string(),
    }
}

// ---------------------------------------------------------------------------
// What the first start promises
// ---------------------------------------------------------------------------

/// All that is told from the beginning to the end for events that come.
pub open spec fn told(s: OobeView, events: Seq<OobeEvent>) -> Seq<OobeActionView>
    decreases events.len(),
{
    if events.len() == 0 {
        Seq::empty()
    } else {
        told(s, events.drop_last()) + oobe_step(reached(s, events.drop_last()), events.last()).1
    }
}

/// Where events lead.
pub open spec fn reached(s: OobeView, events: Seq<OobeEvent>) -> OobeView
    decreases events.len(),
{
    if events.len() == 0 {
        s
    } else {
        oobe_step(reached(s, events.drop_last()), events.last()).0
    }
}

/// The beginning.
pub open spec fn first_state() -> OobeView {
    OobeView { step: OobeStepKind::Welcome, completed: false, device_name: None }
}

/// What is told after the welcome in the whole course of a first start.
pub open spec fn whole_course() -> Seq<OobeActionView> {
    seq![
        OobeActionView::Tell(step_event(OobeStepKind::AccountSetup)),
        OobeActionView::Tell(step_event(OobeStepKind::ModelDownload)),
        OobeActionView::FetchModel,
        OobeActionView::Tell(step_event(OobeStepKind::Done)),
        OobeActionView::Tell(complete_event()),
    ]
}

/// Whatever events come, and in whatever order, the steps are told in their order, each once:
/// what has been told is the beginning of the whole course, as far as the step says. The device
/// has a name as soon as the welcome is answered, and the first start is over exactly at the
/// last step.
pub proof fn lemma_steps_in_order(events: Seq<OobeEvent>)
    ensures
        ({
            let s = reached(first_state(), events);
            let said = told(first_state(), events);
            &&& s.step == OobeStepKind::Welcome ==> said == Seq::<OobeActionView>::empty()
                && s.device_name is None
            &&& s.step == OobeStepKind::AccountSetup ==> said == whole_course().take(1)
                && s.device_name is Some
            &&& s.step == OobeStepKind::Done ==> said == whole_course() && s.device_name is Some
            &&& s.step != OobeStepKind::ModelDownload
            &&& s.completed <==> s.step == OobeStepKind::Done
        }),
    decreases events.len(),
{
    if events.len() > 0 {
        lemma_steps_in_order(events.drop_last());
        let before = reached(first_state(), events.drop_last());
        let said = told(first_state(), events.drop_last());
        let (after, more) = oobe_step(before, events.last());
        assert(said + Seq::<OobeActionView>::empty() =~= said);
        if before.step == OobeStepKind::Welcome && after.step == OobeStepKind::AccountSetup {
            assert(said + more =~= whole_course().take(1));
        }
        if before.step == OobeStepKind::AccountSetup && after.step == OobeStepKind::Done {
            assert(said + more =~= whole_course());
        }
    }
}

/// The first start always ends: once no input comes any more two steps suffice.
pub proof fn lemma_ends_when_closed(s: OobeView)
    requires
        s.step != OobeStepKind::ModelDownload,
        s.step == OobeStepKind::Done ==> s.completed,
    ensures
        ({
            let one = oobe_step(s, OobeEvent::Closed).0;
            oobe_step(one, OobeEvent::Closed).0.completed
        }),
{
}

} // verus!
