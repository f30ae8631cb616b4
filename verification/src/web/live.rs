//! Parts of pages that follow the printer, and its controls.

use vstd::prelude::*;

use crate::accounts::{self, Grants, Permission, User};
use crate::cc2::client::CommandError;
use crate::cc2::methods;
use crate::jobs::{Job, JobState, Jobs};
use crate::text;
use crate::web::error::AppError;
use crate::web::views::PrinterCard;

verus! {

/// The printer card by itself, for pages that are already open.
#[derive(Debug)]
pub struct PrinterCardPartial {
    pub card: PrinterCard,
}

/// A line that a control puts on the page.
#[derive(Debug, PartialEq, Eq)]
pub struct Notice {
    pub class: &'static str,
    pub text: String,
}

impl Notice {
    pub open spec fn says(self, class: Seq<char>, text: Seq<char>) -> bool {
        self.class@ == class && self.text@ == text
    }
}

/// What a control asks of the printer.
#[derive(Debug, Clone, Copy, PartialEq, Eq, Structural)]
pub enum Control {
    Pause,
    Resume,
    Stop,
    /// The chamber light, on or off.
    Light(bool),
}

impl Control {
    pub open spec fn named(raw: Seq<char>) -> Option<Control> {
        if raw == "pause"@ {
            Some(Control::Pause)
        } else if raw == "resume"@ {
            Some(Control::Resume)
        } else if raw == "stop"@ {
            Some(Control::Stop)
        } else if raw == "light-on"@ {
            Some(Control::Light(true))
        } else if raw == "light-off"@ {
            Some(Control::Light(false))
        } else {
            None
        }
    }

    pub fn parse(raw: &str) -> (r: Option<Control>)
        ensures
            r == Control::named(raw@),
    {
        if text::same(raw, "pause") {
            Some(Control::Pause)
        } else if text::same(raw, "resume") {
            Some(Control::Resume)
        } else if text::same(raw, "stop") {
            Some(Control::Stop)
        } else if text::same(raw, "light-on") {
            Some(Control::Light(true))
        } else if text::same(raw, "light-off") {
            Some(Control::Light(false))
        } else {
            None
        }
    }

    pub open spec fn done_text(self) -> Seq<char> {
        match self {
            Control::Pause => "Pause sent."@,
            Control::Resume => "Resume sent."@,
            Control::Stop => "Stop sent."@,
            Control::Light(true) => "Light on."@,
            Control::Light(false) => "Light off."@,
        }
    }

    pub open spec fn code(self) -> u32 {
        match self {
            Control::Pause => methods::PAUSE_PRINT,
            Control::Resume => methods::RESUME_PRINT,
            Control::Stop => methods::STOP_PRINT,
            Control::Light(_) => methods::SET_LIGHT,
        }
    }

    /// The method that asks it of the printer.
    pub fn method(self) -> (r: u32)
        ensures
            r == self.code(),
    {
        match self {
            Control::Pause => methods::PAUSE_PRINT,
            Control::Resume => methods::RESUME_PRINT,
            Control::Stop => methods::STOP_PRINT,
            Control::Light(_) => methods::SET_LIGHT,
        }
    }
}

/// A print of the user's own is running.
pub open spec fn prints(jobs: Seq<Job>, user_id: i64) -> bool {
    exists|i: int|
        0 <= i < jobs.len() && (#[trigger] jobs[i]).state == JobState::Printing
            && jobs[i].owned_by() == Some(user_id)
}

/// Who may pause and stop what is printing: those to whom it was granted, and the one whose
/// print it is.
pub fn may_control(db: &Jobs, grants: &Grants, user: &User) -> (r: bool)
    ensures
        r == (accounts::holds(grants.list@, *user, Permission::ControlPrint) || prints(
            db.jobs@,
            user.id,
        )),
{
    if accounts::has_permission(grants, user, Permission::ControlPrint) {
        return true;
    }
    let mut i: usize = 0;
    while i < db.jobs.len()
        invariant
            i <= db.jobs@.len(),
            forall|k: int|
                0 <= k < i ==> (#[trigger] db.jobs@[k]).state != JobState::Printing
                    || db.jobs@[k].owned_by() != Some(user.id),
        decreases db.jobs.len() - i,
    {
        if db.jobs[i].state == JobState::Printing {
            if let Some(owner) = db.jobs[i].owner_id() {
                if owner == user.id {
                    assert(db.jobs@[i as int].state == JobState::Printing);
                    return true;
                }
            }
        }
        i += 1;
    }
    false
}

/// What a control comes to before the printer is asked: a request to it, or a line for the page
/// where there is no printer to ask. The light is everybody's; the rest takes who may control
/// the print.
pub fn control(action: &str, may_control: bool, connected: bool) -> (r: Result<
    Result<Control, Notice>,
    AppError,
>)
    ensures
        ({
            let asked = Control::named(action@);
            if !may_control && !(asked matches Some(Control::Light(_))) {
                r == Err::<Result<Control, Notice>, AppError>(AppError::Forbidden)
            } else if !connected {
                r matches Ok(Err(notice)) && notice.says("error"@, "The printer is not connected."@)
            } else {
                match asked {
                    Some(control) => r == Ok::<Result<Control, Notice>, AppError>(Ok(control)),
                    None => r == Err::<Result<Control, Notice>, AppError>(AppError::NotFound),
                }
            }
        }),
{
    let asked = Control::parse(action);
    let is_light = match asked {
        Some(Control::Light(_)) => true,
        _ => false,
    };
    if !may_control && !is_light {
        return Err(AppError::Forbidden);
    }
    if !connected {
        return Ok(
            Err(Notice { class: "error", text: "The printer is not connected.".to_string() }),
        );
    }
    match asked {
        Some(control) => Ok(Ok(control)),
        None => Err(AppError::NotFound),
    }
}

/// What the page says once the printer has answered.
pub fn control_answer(control: Control, answer: Result<(), CommandError>) -> (r: Notice)
    ensures
        match answer {
            Ok(()) => r.says("notice"@, control.done_text()),
            Err(error) => r.says("error"@, "The printer refused: "@ + error.text()),
        },
{
    match answer {
        Ok(()) => Notice {
            class: "notice",
            text: match control {
                Control::Pause => "Pause sent.".to_string(),
                Control::Resume => "Resume sent.".to_string(),
                Control::Stop => "Stop sent.".to_string(),
                Control::Light(true) => "Light on.".to_string(),
                Control::Light(false) => "Light off.".to_string(),
            },
        },
        Err(error) => {
            let mut said = "The printer refused: ".to_string();
            said.append(error.message().as_str());
            Notice { class: "error", text: said }
        },
    }
}

/// What is said where no picture could be had.
pub fn camera_unavailable(reason: &str) -> (r: AppError)
    ensures
        r matches AppError::Unavailable(said) && said@ == "The camera is unavailable: "@ + reason@,
{
    let mut said = "The camera is unavailable: ".to_string();
    said.append(reason);
    AppError::Unavailable(said)
}

/// Each button sends its own command: pause 1021, stop 1022, resume 1023, the light 1029.
pub proof fn buttons_send_their_command(raw: Seq<char>)
    ensures
        Control::named("pause"@) == Some(Control::Pause) && Control::Pause.code() == 1021,
        Control::named("stop"@) == Some(Control::Stop) && Control::Stop.code() == 1022,
        Control::named("resume"@) == Some(Control::Resume) && Control::Resume.code() == 1023,
        Control::named("light-on"@) == Some(Control::Light(true)) && Control::Light(true).code()
            == 1029,
        Control::named("light-off"@) == Some(Control::Light(false)) && Control::Light(false).code()
            == 1029,
        Control::named(raw) is Some ==> raw == "pause"@ || raw == "stop"@ || raw == "resume"@ || raw
            == "light-on"@ || raw == "light-off"@,
{
    reveal_strlit("pause");
    reveal_strlit("stop");
    reveal_strlit("resume");
    reveal_strlit("light-on");
    reveal_strlit("light-off");
    assert("pause"@.len() == 5 && "stop"@.len() == 4 && "resume"@.len() == 6);
    assert("light-on"@.len() == 8 && "light-off"@.len() == 9);
}

/// Who has a print running is the owner of a job that prints.
pub proof fn a_print_runs_for_its_owner(jobs: Seq<Job>, user_id: i64, i: int)
    ensures
        0 <= i < jobs.len() && jobs[i].state == JobState::Printing && jobs[i].owner is Some
            && jobs[i].owned_by() == Some(user_id) ==> prints(jobs, user_id),
        prints(jobs, user_id) ==> exists|k: int|
            0 <= k < jobs.len() && (#[trigger] jobs[k]).state == JobState::Printing && match jobs[k].owner {
                Some(owner) => owner.0 == user_id,
                None => false,
            },
{
}

} // verus!
