//! The decisions that the application makes on its shared state: when the
//! web server restarts, when the machine is kept awake, which completed
//! downloads are announced, and how it starts.
use crate::models::{AppSettings, DownloadStatus};
use crate::options::TextSet;
use crate::text::{chars_of, extend_vec, seq_eq, string_of};
use vstd::prelude::*;

verus! {

/// Whether new settings change how the web server must run: its switch,
/// its password or its address.
pub open spec fn spec_web_settings_changed(current: AppSettings, next: AppSettings) -> bool {
    current.web_access_enabled != next.web_access_enabled || current.web_access_password@
        != next.web_access_password@ || current.web_access_url@ != next.web_access_url@
}

pub fn web_settings_changed(current: &AppSettings, next: &AppSettings) -> (r: bool)
    ensures
        r == spec_web_settings_changed(*current, *next),
{
    current.web_access_enabled != next.web_access_enabled || !seq_eq(
        &chars_of(current.web_access_password.as_str()),
        &chars_of(next.web_access_password.as_str()),
    ) || !seq_eq(
        &chars_of(current.web_access_url.as_str()),
        &chars_of(next.web_access_url.as_str()),
    )
}

/// Whether the machine is kept awake: while downloads run, where that is
/// asked for, and while web access is on, where that is asked for.
pub open spec fn spec_prevent_sleep(settings: AppSettings, has_active_downloads: bool) -> bool {
    (settings.prevent_sleep_when_downloading_enabled && has_active_downloads) || (
    settings.prevent_sleep_when_web_access_enabled && settings.web_access_enabled)
}

pub fn should_prevent_sleep(settings: &AppSettings, has_active_downloads: bool) -> (r: bool)
    ensures
        r == spec_prevent_sleep(*settings, has_active_downloads),
{
    (settings.prevent_sleep_when_downloading_enabled && has_active_downloads) || (
    settings.prevent_sleep_when_web_access_enabled && settings.web_access_enabled)
}

/// A task as the completion notices see it.
pub struct TaskSummary {
    pub id: String,
    pub file_name: String,
    pub status: DownloadStatus,
}

/// A notice shown to the user.
#[derive(Debug, PartialEq, Eq)]
pub struct Notice {
    pub title: String,
    pub body: String,
}

pub open spec fn notice_title() -> Seq<char> {
    "下载完成"@
}

pub open spec fn notice_body(file_name: Seq<char>) -> Seq<char> {
    file_name + " 已下载完成"@
}

/// The announced ids and the notice bodies after the first `n` tasks: each
/// completed task not announced before is marked announced, and gets a
/// notice where notices are enabled.
pub open spec fn spec_notices(
    announced: Set<Seq<char>>,
    tasks: Seq<TaskSummary>,
    enabled: bool,
    n: int,
) -> (Set<Seq<char>>, Seq<Seq<char>>)
    decreases n,
{
    if n <= 0 || n > tasks.len() {
        (announced, Seq::empty())
    } else {
        let (s, out) = spec_notices(announced, tasks, enabled, n - 1);
        let t = tasks[n - 1];
        if t.status != DownloadStatus::Completed || s.contains(t.id@) {
            (s, out)
        } else {
            (s.insert(t.id@), if enabled {
                out.push(notice_body(t.file_name@))
            } else {
                out
            })
        }
    }
}

/// The completed downloads that have been announced.
pub struct CompletionNotices {
    announced: TextSet,
}

impl View for CompletionNotices {
    type V = Set<Seq<char>>;

    closed spec fn view(&self) -> Set<Seq<char>> {
        self.announced@
    }
}

impl CompletionNotices {
    /// Starts from the tasks that are complete already: they are not
    /// announced again.
    pub fn new(tasks: &[TaskSummary]) -> (r: Self)
        ensures
            r@ == spec_notices(Set::empty(), tasks@, false, tasks@.len() as int).0,
    {
        let mut r = CompletionNotices { announced: TextSet::new() };
        let _ = r.announce(tasks, false);
        r
    }

    /// The notices for the completed tasks not announced before, which are
    /// then marked announced; none are made where notices are disabled.
    pub fn announce(&mut self, tasks: &[TaskSummary], enabled: bool) -> (r: Vec<Notice>)
        ensures
            final(self)@ == spec_notices(old(self)@, tasks@, enabled, tasks@.len() as int).0,
            r@.map_values(|n: Notice| n.body@) == spec_notices(
                old(self)@,
                tasks@,
                enabled,
                tasks@.len() as int,
            ).1,
            forall|i: int| 0 <= i < r@.len() ==> (#[trigger] r@[i]).title@ == notice_title(),
    {
        let mut r: Vec<Notice> = Vec::new();
        let mut i: usize = 0;
        let ghost start = self@;
        while i < tasks.len()
            invariant
                i <= tasks@.len(),
                start == old(self)@,
                (self@, r@.map_values(|n: Notice| n.body@)) == spec_notices(start, tasks@, enabled, i as int),
                forall|j: int| 0 <= j < r@.len() ==> (#[trigger] r@[j]).title@ == notice_title(),
            decreases tasks.len() - i,
        {
            let t = &tasks[i];
            if t.status == DownloadStatus::Completed && !self.announced.contains(t.id.as_str()) {
                self.announced.insert(t.id.as_str());
                if enabled {
                    let mut body = chars_of(t.file_name.as_str());
                    extend_vec(&mut body, &chars_of(" 已下载完成"));
                    let ghost before = r@;
                    r.push(Notice { title: string_of(&chars_of("下载完成")), body: string_of(&body) });
                    proof {
                        assert(r@.map_values(|n: Notice| n.body@) =~= before.map_values(
                            |n: Notice| n.body@,
                        ).push(notice_body(t.file_name@)));
                    }
                }
            }
            i = i + 1;
        }
        r
    }
}

/// A completed download is announced at most once: after the tasks have
/// been announced, announcing them again gives no notice.
pub proof fn lemma_announce_once(announced: Set<Seq<char>>, tasks: Seq<TaskSummary>, enabled: bool)
    ensures
        spec_notices(
            spec_notices(announced, tasks, enabled, tasks.len() as int).0,
            tasks,
            enabled,
            tasks.len() as int,
        ).1.len() == 0,
{
    let after = spec_notices(announced, tasks, enabled, tasks.len() as int).0;
    lemma_announced_grows(announced, tasks, enabled, tasks.len() as int);
    lemma_nothing_new(after, tasks, enabled, tasks.len() as int);
}

proof fn lemma_announced_grows(announced: Set<Seq<char>>, tasks: Seq<TaskSummary>, enabled: bool, n: int)
    requires
        0 <= n <= tasks.len(),
    ensures
        announced.subset_of(spec_notices(announced, tasks, enabled, n).0),
        forall|j: int|
            0 <= j < n && (#[trigger] tasks[j]).status == DownloadStatus::Completed ==> spec_notices(
                announced,
                tasks,
                enabled,
                n,
            ).0.contains(tasks[j].id@),
    decreases n,
{
    if n > 0 {
        lemma_announced_grows(announced, tasks, enabled, n - 1);
    }
}

proof fn lemma_nothing_new(s: Set<Seq<char>>, tasks: Seq<TaskSummary>, enabled: bool, n: int)
    requires
        0 <= n <= tasks.len(),
        forall|j: int|
            0 <= j < tasks.len() && (#[trigger] tasks[j]).status == DownloadStatus::Completed
                ==> s.contains(tasks[j].id@),
    ensures
        spec_notices(s, tasks, enabled, n).0 == s,
        spec_notices(s, tasks, enabled, n).1.len() == 0,
    decreases n,
{
    if n > 0 {
        lemma_nothing_new(s, tasks, enabled, n - 1);
    }
}

/// Whether the application was started by the system at log-in: one of its
/// arguments is `--autostart`.
pub fn launched_by_autostart(args: &[String]) -> (r: bool)
    ensures
        r == exists|i: int| 0 <= i < args@.len() && (#[trigger] args@[i])@ == "--autostart"@,
{
    let flag = chars_of("--autostart");
    let mut i: usize = 0;
    while i < args.len()
        invariant
            i <= args@.len(),
            flag@ == "--autostart"@,
            forall|j: int| 0 <= j < i ==> (#[trigger] args@[j])@ != "--autostart"@,
        decreases args.len() - i,
    {
        if seq_eq(&chars_of(args[i].as_str()), &flag) {
            return true;
        }
        i = i + 1;
    }
    false
}

/// Whether the main window starts hidden: when started at log-in with the
/// setting to start in the tray.
pub fn start_hidden(settings: &AppSettings, args: &[String]) -> (r: bool)
    ensures
        r == (settings.auto_start_minimized_to_tray && exists|i: int|
            0 <= i < args@.len() && (#[trigger] args@[i])@ == "--autostart"@),
{
    settings.auto_start_minimized_to_tray && launched_by_autostart(args)
}

/// What start at log-in needs: `Some(true)` to turn it on, `Some(false)` to
/// turn it off, `None` where it already is as the settings want.
pub fn autostart_change(wanted: bool, is_enabled: bool) -> (r: Option<bool>)
    ensures
        r == (if wanted != is_enabled {
            Some(wanted)
        } else {
            None::<bool>
        }),
{
    if wanted && !is_enabled {
        Some(true)
    } else if !wanted && is_enabled {
        Some(false)
    } else {
        None
    }
}

} // verus!
