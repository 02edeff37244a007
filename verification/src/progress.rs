//! The progress of an installation as it is shown.
use crate::text::{join2, join3, signed_decimal, signed_text};
use vstd::prelude::*;

verus! {

/// One step of progress. Minus one stands for an error and a hundred or more for the end; a phase
/// without a percentage of its own is marked as such.
#[derive(Debug, Clone)]
pub struct ProgressUpdate {
    pub status: String,
    pub progress: i32,
    pub determinate: bool,
}

impl ProgressUpdate {
    pub fn new(status: String, progress: i32) -> (r: ProgressUpdate)
        ensures
            r == (ProgressUpdate { status, progress, determinate: true }),
    {
        ProgressUpdate { status, progress, determinate: true }
    }

    pub fn indeterminate(status: String, progress: i32) -> (r: ProgressUpdate)
        ensures
            r == (ProgressUpdate { status, progress, determinate: false }),
    {
        ProgressUpdate { status, progress, determinate: false }
    }
}

/// What happens to the screen.
#[derive(Debug)]
pub enum Message {
    InstallationProgress(ProgressUpdate),
    InstallationError(String),
    InstallationFinished,
    Back,
}

/// What is to be done on account of a message.
#[derive(Debug)]
pub enum ProgressTask {
    Nothing,
    /// Show an error.
    ShowError(String),
    /// Tell that the installation has finished.
    Finished,
}

/// The screen that shows the progress of an installation.
#[derive(Debug)]
pub struct ProgressScreen {
    pub status: String,
    pub progress: i32,
    pub determinate: bool,
    pub is_installing: bool,
    /// Progress is listened for.
    pub listening: bool,
}

/// The screen while nothing is installed.
pub open spec fn is_idle(s: ProgressScreen, installing: bool) -> bool {
    s.status@ == "Idle."@ && s.progress == 0 && s.determinate && s.is_installing == installing
        && s.listening == installing
}

/// What a message does to the screen, and what is to be done on account of it. `finished` is the
/// text for the end, in the user's language.
pub open spec fn step(
    before: ProgressScreen,
    message: Message,
    finished: Seq<char>,
    after: ProgressScreen,
    task: ProgressTask,
) -> bool {
    match message {
        Message::InstallationProgress(update) => {
            let ended = update.progress == -1 || update.progress >= 100;
            &&& after.status == update.status
            &&& after.progress == update.progress
            &&& after.determinate == update.determinate
            &&& after.is_installing == (before.is_installing && !ended)
            &&& after.listening == (before.listening && !ended)
            &&& if update.progress == -1 {
                task matches ProgressTask::ShowError(e) && e@ == update.status@
            } else if update.progress >= 100 {
                task == ProgressTask::Finished
            } else {
                task == ProgressTask::Nothing
            }
        },
        Message::InstallationError(error) => {
            &&& after.progress == -1
            &&& after.status@ == "ERR: "@ + error@
            &&& after.determinate == before.determinate
            &&& !after.is_installing
            &&& !after.listening
            &&& task == ProgressTask::ShowError(error)
        },
        Message::InstallationFinished => {
            &&& after.progress == 100
            &&& after.status@ == finished
            &&& after.determinate == before.determinate
            &&& !after.is_installing
            &&& !after.listening
            &&& task == ProgressTask::Nothing
        },
        Message::Back => after == before && task == ProgressTask::Nothing,
    }
}

impl ProgressScreen {
    pub fn new() -> (r: ProgressScreen)
        ensures
            is_idle(r, false),
    {
        ProgressScreen {
            status: "Idle.".to_string(),
            progress: 0,
            determinate: true,
            is_installing: false,
            listening: false,
        }
    }

    pub fn start_installation(&mut self)
        ensures
            is_idle(*final(self), true),
    {
        self.is_installing = true;
        self.progress = 0;
        self.determinate = true;
        self.status = "Idle.".to_string();
        self.listening = true;
    }

    /// Takes a message. Returns what is to be done on account of it.
    pub fn update(&mut self, message: Message, finished: &str) -> (r: ProgressTask)
        ensures
            step(*old(self), message, finished@, *final(self), r),
    {
        match message {
            Message::InstallationProgress(update) => {
                let ProgressUpdate { status, progress, determinate } = update;
                let shown: String = status.clone();
                self.status = status;
                self.progress = progress;
                self.determinate = determinate;
                if progress == -1 {
                    self.listening = false;
                    self.is_installing = false;
                    ProgressTask::ShowError(shown)
                } else if progress >= 100 {
                    self.listening = false;
                    self.is_installing = false;
                    ProgressTask::Finished
                } else {
                    ProgressTask::Nothing
                }
            },
            Message::InstallationError(error) => {
                self.progress = -1;
                self.status = join2("ERR: ", error.as_str());
                self.listening = false;
                self.is_installing = false;
                ProgressTask::ShowError(error)
            },
            Message::InstallationFinished => {
                self.progress = 100;
                self.status = finished.to_string();
                self.listening = false;
                self.is_installing = false;
                ProgressTask::Nothing
            },
            Message::Back => ProgressTask::Nothing,
        }
    }

    /// The line on how things stand.
    pub fn status_text(&self) -> (r: String)
        ensures
            r@ == if self.determinate {
                signed_decimal(self.progress as int) + "% - "@ + self.status@
            } else {
                self.status@
            },
    {
        if self.determinate {
            join3(signed_text(self.progress).as_str(), "% - ", self.status.as_str())
        } else {
            self.status.clone()
        }
    }

    /// Whether the screen can be left.
    pub fn can_go_back(&self) -> (r: bool)
        ensures
            r == !self.is_installing,
    {
        !self.is_installing
    }
}

impl Default for ProgressScreen {
    fn default() -> (r: ProgressScreen)
        ensures
            is_idle(r, false),
    {
        ProgressScreen::new()
    }
}

/// Once an installation has ended, well or not, the screen can be left and listens no more.
pub proof fn law_ended_installation_can_be_left(
    before: ProgressScreen,
    message: Message,
    finished: Seq<char>,
    after: ProgressScreen,
    task: ProgressTask,
)
    requires
        step(before, message, finished, after, task),
        !(task is Nothing) || message is InstallationFinished,
    ensures
        !after.is_installing,
        !after.listening,
{
}

/// An installation goes on as long as its progress lies below a hundred and no error is told; it ends
/// otherwise, and an error is shown as it was told.
pub proof fn law_installation_goes_on_until_its_end(
    before: ProgressScreen,
    update: ProgressUpdate,
    finished: Seq<char>,
    after: ProgressScreen,
    task: ProgressTask,
)
    requires
        step(before, Message::InstallationProgress(update), finished, after, task),
    ensures
        0 <= update.progress < 100 ==> after.is_installing == before.is_installing && task is Nothing,
        update.progress >= 100 ==> !after.is_installing && task is Finished,
        update.progress == -1 ==> !after.is_installing && (task matches ProgressTask::ShowError(e)
            && e@ == update.status@),
        after.status@ == update.status@ && after.progress == update.progress,
{
}

/// An error ends an installation and is told in full.
pub proof fn law_error_ends_the_installation(
    before: ProgressScreen,
    error: String,
    finished: Seq<char>,
    after: ProgressScreen,
    task: ProgressTask,
)
    requires
        step(before, Message::InstallationError(error), finished, after, task),
    ensures
        !after.is_installing,
        task == ProgressTask::ShowError(error),
        crate::text::has_text(after.status@, error@),
        after.progress < 0,
{
    crate::text::law_joined_text_is_there("ERR: "@, error@, seq![]);
}

/// A screen that is idle shows no progress, and it listens exactly while an installation is under way.
pub proof fn law_idle_screen(s: ProgressScreen, installing: bool)
    requires
        is_idle(s, installing),
    ensures
        s.progress == 0,
        s.determinate,
        s.is_installing == s.listening,
        s.is_installing <==> installing,
{
}

} // verus!
