//! Bringing a new timetable: what is asked of the store, in which order, and what follows.

use crate::date::{Date, DateView};
use crate::domain::{
    compare_schedules, diff_of, group_differs, group_lessons_only_in, is_diff, is_only_in,
    lemma_sorted_texts_equal, same_lessons_make_no_difference, validate_schedule, week_of, DiffView,
    ScheduleDiff, ScheduleError, UpdateKind,
};
use crate::lesson::{copy_texts, lessons_view, Lesson, LessonView};
use crate::store::{
    kind_named, notice, notification_text, parse_update_kind, Publication, PublicationView,
};
use crate::text::{concat3, insert_sorted, strictly_sorted, texts};
use vstd::prelude::*;

verus! {

/// Why an upload is not taken.
#[derive(Debug, Clone, Copy, PartialEq, Eq, Structural)]
pub enum UploadError {
    NotAdmin,
    Schedule(ScheduleError),
    /// The file was published once and has been replaced since.
    Superseded,
    /// The file is the published one, and changes nothing.
    AlreadyPublished,
    /// The file says the same as the published one.
    NoChanges,
}

impl UploadError {
    /// The message that the error is shown with.
    pub open spec fn text(self) -> Seq<char> {
        match self {
            UploadError::NotAdmin => "загрузка доступна только администраторам"@,
            UploadError::Schedule(error) => error.text(),
            UploadError::Superseded =>
                "этот Excel-файл уже публиковали, но он больше не является текущей версией недели"@,
            UploadError::AlreadyPublished =>
                "эта версия Excel уже опубликована и не содержит новых изменений"@,
            UploadError::NoChanges =>
                "в файле нет изменений относительно опубликованной версии недели"@,
        }
    }

    /// The message that the error is shown with.
    pub fn message(self) -> (r: &'static str)
        ensures
            r@ == self.text(),
    {
        match self {
            UploadError::NotAdmin => "загрузка доступна только администраторам",
            UploadError::Schedule(error) => error.message(),
            UploadError::Superseded =>
                "этот Excel-файл уже публиковали, но он больше не является текущей версией недели",
            UploadError::AlreadyPublished =>
                "эта версия Excel уже опубликована и не содержит новых изменений",
            UploadError::NoChanges =>
                "в файле нет изменений относительно опубликованной версии недели",
        }
    }
}

/// Where the preview of an upload stands.
#[derive(Debug)]
pub enum PreviewStep {
    /// Is the uploader an administrator?
    AskAdmin,
    /// Was the file ever published, and is it the current version of the week?
    AskFile { week_start: Date, week_end: Date },
    /// Which version of the week is published?
    AskCurrent { week_start: Date, week_end: Date, is_current_file: bool },
    /// Which lessons does that version have?
    AskLessons { week_start: Date, week_end: Date, is_current_file: bool, version: u128 },
    /// The upload is to be kept until it is confirmed.
    Save { update: Publication, base_version: Option<u128> },
    /// The upload is not taken.
    Refuse(UploadError),
}

/// The contents of a `PreviewStep`.
pub enum PreviewStepView {
    AskAdmin,
    AskFile { week_start: DateView, week_end: DateView },
    AskCurrent { week_start: DateView, week_end: DateView, is_current_file: bool },
    AskLessons { week_start: DateView, week_end: DateView, is_current_file: bool, version: u128 },
    Save { update: PublicationView, base_version: Option<u128> },
    Refuse(UploadError),
}

impl View for PreviewStep {
    type V = PreviewStepView;

    open spec fn view(&self) -> PreviewStepView {
        match *self {
            PreviewStep::AskAdmin => PreviewStepView::AskAdmin,
            PreviewStep::AskFile { week_start, week_end } => PreviewStepView::AskFile {
                week_start: week_start@,
                week_end: week_end@,
            },
            PreviewStep::AskCurrent { week_start, week_end, is_current_file } =>
                PreviewStepView::AskCurrent {
                week_start: week_start@,
                week_end: week_end@,
                is_current_file,
            },
            PreviewStep::AskLessons { week_start, week_end, is_current_file, version } =>
                PreviewStepView::AskLessons {
                week_start: week_start@,
                week_end: week_end@,
                is_current_file,
                version,
            },
            PreviewStep::Save { update, base_version } => PreviewStepView::Save {
                update: update@,
                base_version,
            },
            PreviewStep::Refuse(error) => PreviewStepView::Refuse(error),
        }
    }
}

/// What the store answers.
pub enum PreviewReply {
    Admin(bool),
    File { was_published: bool, is_current_file: bool },
    Current(Option<u128>),
    Lessons(Vec<Lesson>),
}

/// The contents of a `PreviewReply`.
pub enum PreviewReplyView {
    Admin(bool),
    File { was_published: bool, is_current_file: bool },
    Current(Option<u128>),
    Lessons(Seq<LessonView>),
}

impl View for PreviewReply {
    type V = PreviewReplyView;

    open spec fn view(&self) -> PreviewReplyView {
        match *self {
            PreviewReply::Admin(is_admin) => PreviewReplyView::Admin(is_admin),
            PreviewReply::File { was_published, is_current_file } => PreviewReplyView::File {
                was_published,
                is_current_file,
            },
            PreviewReply::Current(version) => PreviewReplyView::Current(version),
            PreviewReply::Lessons(lessons) => PreviewReplyView::Lessons(lessons_view(lessons@)),
        }
    }
}

/// The step after the lessons of the published version are known.
pub open spec fn compared(
    week_start: DateView,
    week_end: DateView,
    is_current_file: bool,
    version: u128,
    previous: Seq<LessonView>,
    lessons: Seq<LessonView>,
) -> PreviewStepView {
    let diff = diff_of(previous, lessons);
    if diff.changed_groups.len() == 0 {
        PreviewStepView::Refuse(
            if is_current_file {
                UploadError::AlreadyPublished
            } else {
                UploadError::NoChanges
            },
        )
    } else {
        PreviewStepView::Save {
            update: PublicationView { week_start, week_end, kind: UpdateKind::Correction, diff },
            base_version: Some(version),
        }
    }
}

/// The step after a reply. A reply to another question changes nothing.
pub open spec fn after_preview_reply(
    step: PreviewStepView,
    reply: PreviewReplyView,
    lessons: Seq<LessonView>,
) -> PreviewStepView {
    match (step, reply) {
        (PreviewStepView::AskAdmin, PreviewReplyView::Admin(is_admin)) => {
            if !is_admin {
                PreviewStepView::Refuse(UploadError::NotAdmin)
            } else {
                match week_of(lessons) {
                    Ok((week_start, week_end)) => PreviewStepView::AskFile { week_start, week_end },
                    Err(error) => PreviewStepView::Refuse(UploadError::Schedule(error)),
                }
            }
        },
        (
            PreviewStepView::AskFile { week_start, week_end },
            PreviewReplyView::File { was_published, is_current_file },
        ) => {
            if was_published && !is_current_file {
                PreviewStepView::Refuse(UploadError::Superseded)
            } else {
                PreviewStepView::AskCurrent { week_start, week_end, is_current_file }
            }
        },
        (
            PreviewStepView::AskCurrent { week_start, week_end, is_current_file },
            PreviewReplyView::Current(current),
        ) => {
            match current {
                Some(version) => PreviewStepView::AskLessons {
                    week_start,
                    week_end,
                    is_current_file,
                    version,
                },
                None => PreviewStepView::Save {
                    update: PublicationView {
                        week_start,
                        week_end,
                        kind: UpdateKind::NewWeek,
                        diff: diff_of(seq![], lessons),
                    },
                    base_version: None,
                },
            }
        },
        (
            PreviewStepView::AskLessons { week_start, week_end, is_current_file, version },
            PreviewReplyView::Lessons(previous),
        ) => compared(week_start, week_end, is_current_file, version, previous, lessons),
        _ => step,
    }
}

/// The step after a reply, for an upload of `lessons`.
pub fn next_preview(step: PreviewStep, reply: PreviewReply, lessons: &[Lesson]) -> (r: PreviewStep)
    ensures
        r@ == after_preview_reply(step@, reply@, lessons_view(lessons@)),
{
    match (step, reply) {
        (PreviewStep::AskAdmin, PreviewReply::Admin(is_admin)) => {
            if !is_admin {
                return PreviewStep::Refuse(UploadError::NotAdmin);
            }
            match validate_schedule(lessons) {
                Ok((week_start, week_end)) => PreviewStep::AskFile { week_start, week_end },
                Err(error) => PreviewStep::Refuse(UploadError::Schedule(error)),
            }
        },
        (
            PreviewStep::AskFile { week_start, week_end },
            PreviewReply::File { was_published, is_current_file },
        ) => {
            if was_published && !is_current_file {
                PreviewStep::Refuse(UploadError::Superseded)
            } else {
                PreviewStep::AskCurrent { week_start, week_end, is_current_file }
            }
        },
        (
            PreviewStep::AskCurrent { week_start, week_end, is_current_file },
            PreviewReply::Current(current),
        ) => {
            match current {
                Some(version) => PreviewStep::AskLessons {
                    week_start,
                    week_end,
                    is_current_file,
                    version,
                },
                None => {
                    let none: Vec<Lesson> = Vec::new();
                    let diff = compare_schedules(none.as_slice(), lessons);
                    assert(lessons_view(none@) =~= seq![]);
                    PreviewStep::Save {
                        update: Publication {
                            week_start,
                            week_end,
                            kind: UpdateKind::NewWeek,
                            diff,
                        },
                        base_version: None,
                    }
                },
            }
        },
        (
            PreviewStep::AskLessons { week_start, week_end, is_current_file, version },
            PreviewReply::Lessons(previous),
        ) => {
            let diff = compare_schedules(previous.as_slice(), lessons);
            assert(diff.changed_groups@.len() == diff@.changed_groups.len());
            if diff.changed_groups.len() == 0 {
                if is_current_file {
                    PreviewStep::Refuse(UploadError::AlreadyPublished)
                } else {
                    PreviewStep::Refuse(UploadError::NoChanges)
                }
            } else {
                PreviewStep::Save {
                    update: Publication {
                        week_start,
                        week_end,
                        kind: UpdateKind::Correction,
                        diff,
                    },
                    base_version: Some(version),
                }
            }
        },
        (step, _) => step,
    }
}

/// The step after a number of replies.
pub open spec fn after_preview_replies(
    replies: Seq<PreviewReplyView>,
    lessons: Seq<LessonView>,
) -> PreviewStepView
    decreases replies.len(),
{
    if replies.len() == 0 {
        PreviewStepView::AskAdmin
    } else {
        after_preview_reply(
            after_preview_replies(replies.drop_last(), lessons),
            replies.last(),
            lessons,
        )
    }
}

/// The week that a step speaks of, once the upload has passed the first checks.
pub open spec fn checked_week(step: PreviewStepView) -> Option<(DateView, DateView)> {
    match step {
        PreviewStepView::AskFile { week_start, week_end } => Some((week_start, week_end)),
        PreviewStepView::AskCurrent { week_start, week_end, .. } => Some((week_start, week_end)),
        PreviewStepView::AskLessons { week_start, week_end, .. } => Some((week_start, week_end)),
        PreviewStepView::Save { update, .. } => Some((update.week_start, update.week_end)),
        _ => None,
    }
}

/// Only checked uploads are kept: whatever the store answers, what is saved was brought by an
/// administrator and is a valid timetable of the week that it is saved for.
pub proof fn only_checked_uploads_are_kept(
    replies: Seq<PreviewReplyView>,
    lessons: Seq<LessonView>,
)
    ensures
        checked_week(after_preview_replies(replies, lessons)) matches Some(week) ==> {
            &&& replies.contains(PreviewReplyView::Admin(true))
            &&& week_of(lessons) == Ok::<(DateView, DateView), ScheduleError>(week)
        },
    decreases replies.len(),
{
    if replies.len() > 0 {
        let before = replies.drop_last();
        only_checked_uploads_are_kept(before, lessons);
        assert forall|reply: PreviewReplyView| before.contains(reply) implies replies.contains(
            reply,
        ) by {
            let i = choose|i: int| 0 <= i < before.len() && before[i] == reply;
            assert(replies[i] == reply);
        }
        assert(replies.contains(replies.last())) by {
            assert(replies[replies.len() - 1] == replies.last());
        }
    }
}

/// A kept upload is new or changes something: it has no base version only as a new week, and a
/// correction touches some group.
pub proof fn kept_upload_is_new_or_changes_something(
    replies: Seq<PreviewReplyView>,
    lessons: Seq<LessonView>,
)
    ensures
        after_preview_replies(replies, lessons) matches PreviewStepView::Save {
            update,
            base_version,
        } ==> {
            &&& update.kind == UpdateKind::NewWeek <==> base_version is None
            &&& update.kind == UpdateKind::Correction ==> update.diff.changed_groups.len() > 0
        },
    decreases replies.len(),
{
    if replies.len() > 0 {
        kept_upload_is_new_or_changes_something(replies.drop_last(), lessons);
    }
}

/// Uploading what is published changes nothing and is refused, in whatever order the lessons
/// stand.
pub proof fn published_timetable_is_refused(
    week_start: DateView,
    week_end: DateView,
    is_current_file: bool,
    version: u128,
    previous: Seq<LessonView>,
    lessons: Seq<LessonView>,
)
    requires
        forall|lesson: LessonView| #[trigger]
            previous.contains(lesson) <==> lessons.contains(lesson),
    ensures
        after_preview_reply(
            PreviewStepView::AskLessons { week_start, week_end, is_current_file, version },
            PreviewReplyView::Lessons(previous),
            lessons,
        ) == PreviewStepView::Refuse(
            if is_current_file {
                UploadError::AlreadyPublished
            } else {
                UploadError::NoChanges
            },
        ),
{
    let nothing = DiffView { changed_groups: seq![], changed_dates: seq![], added: 0, removed: 0 };
    assert(group_lessons_only_in(lessons, previous) =~= Set::empty());
    assert(group_lessons_only_in(previous, lessons) =~= Set::empty());
    assert(is_diff(nothing, previous, lessons));
    same_lessons_make_no_difference(diff_of(previous, lessons), previous, lessons);
}

/// Why an upload is not published.
#[derive(Debug)]
pub enum ConfirmError {
    NotAdmin,
    /// There is no such upload, or it has been dealt with.
    NotFound,
    /// The upload is of no known kind.
    UnknownKind(String),
    /// The published timetable changed after the preview.
    Changed,
}

/// The contents of a `ConfirmError`.
pub enum ConfirmErrorView {
    NotAdmin,
    NotFound,
    UnknownKind(Seq<char>),
    Changed,
}

impl View for ConfirmError {
    type V = ConfirmErrorView;

    open spec fn view(&self) -> ConfirmErrorView {
        match *self {
            ConfirmError::NotAdmin => ConfirmErrorView::NotAdmin,
            ConfirmError::NotFound => ConfirmErrorView::NotFound,
            ConfirmError::UnknownKind(kind) => ConfirmErrorView::UnknownKind(kind@),
            ConfirmError::Changed => ConfirmErrorView::Changed,
        }
    }
}

impl ConfirmErrorView {
    /// The message that the error is shown with.
    pub open spec fn text(self) -> Seq<char> {
        match self {
            ConfirmErrorView::NotAdmin => "подтверждать загрузку могут только администраторы"@,
            ConfirmErrorView::NotFound => "загрузка не найдена или уже обработана"@,
            ConfirmErrorView::UnknownKind(kind) => "неизвестный тип обновления `"@ + kind + "`"@,
            ConfirmErrorView::Changed =>
                "расписание изменилось после предпросмотра; загрузите файл ещё раз"@,
        }
    }
}

impl ConfirmError {
    /// The message that the error is shown with.
    pub fn message(&self) -> (r: String)
        ensures
            r@ == self@.text(),
    {
        match self {
            ConfirmError::NotAdmin => "подтверждать загрузку могут только администраторы".to_owned(),
            ConfirmError::NotFound => "загрузка не найдена или уже обработана".to_owned(),
            ConfirmError::UnknownKind(kind) => concat3(
                "неизвестный тип обновления `",
                kind.as_str(),
                "`",
            ),
            ConfirmError::Changed =>
                "расписание изменилось после предпросмотра; загрузите файл ещё раз".to_owned(),
        }
    }
}

/// An upload that waits for its confirmation.
#[derive(Debug)]
pub struct PendingUpload {
    pub week_start: Date,
    pub week_end: Date,
    pub update_kind: String,
    pub base_version: Option<u128>,
    pub diff: ScheduleDiff,
    pub lessons: Vec<Lesson>,
}

/// The contents of a `PendingUpload`.
pub struct PendingView {
    pub week_start: DateView,
    pub week_end: DateView,
    pub update_kind: Seq<char>,
    pub base_version: Option<u128>,
    pub diff: DiffView,
    pub lessons: Seq<LessonView>,
}

impl View for PendingUpload {
    type V = PendingView;

    open spec fn view(&self) -> PendingView {
        PendingView {
            week_start: self.week_start@,
            week_end: self.week_end@,
            update_kind: self.update_kind@,
            base_version: self.base_version,
            diff: self.diff@,
            lessons: lessons_view(self.lessons@),
        }
    }
}

/// What is written once an upload is confirmed.
#[derive(Debug)]
pub struct PublishPlan {
    pub publication: Publication,
    /// The lessons of the new version.
    pub lessons: Vec<Lesson>,
    /// The groups whose members are told.
    pub notify_groups: Vec<String>,
    /// What they are told.
    pub body: String,
}

/// The contents of a `PublishPlan`.
pub struct PublishPlanView {
    pub publication: PublicationView,
    pub lessons: Seq<LessonView>,
    pub notify_groups: Seq<Seq<char>>,
    pub body: Seq<char>,
}

impl View for PublishPlan {
    type V = PublishPlanView;

    open spec fn view(&self) -> PublishPlanView {
        PublishPlanView {
            publication: self.publication@,
            lessons: lessons_view(self.lessons@),
            notify_groups: texts(self.notify_groups@),
            body: self.body@,
        }
    }
}

/// Whether a group has one of the lessons.
pub open spec fn has_lesson(lessons: Seq<LessonView>, group: Seq<char>) -> bool {
    exists|i: int| 0 <= i < lessons.len() && (#[trigger] lessons[i]).groups.contains(group)
}

/// `list` names the groups of the lessons, in increasing order and each once.
pub open spec fn lists_groups(list: Seq<Seq<char>>, lessons: Seq<LessonView>) -> bool {
    &&& strictly_sorted(list)
    &&& forall|group: Seq<char>| #[trigger] list.contains(group) <==> has_lesson(lessons, group)
}

/// The groups of the lessons, in increasing order and each once.
pub open spec fn groups_of(lessons: Seq<LessonView>) -> Seq<Seq<char>> {
    choose|list: Seq<Seq<char>>| lists_groups(list, lessons)
}

/// The groups of the lessons, in increasing order and each once.
pub fn all_groups(lessons: &Vec<Lesson>) -> (r: Vec<String>)
    ensures
        lists_groups(texts(r@), lessons_view(lessons@)),
        texts(r@) == groups_of(lessons_view(lessons@)),
{
    let ghost all = lessons_view(lessons@);
    let mut list: Vec<String> = Vec::new();
    assert(texts(list@) =~= seq![]);
    let mut i: usize = 0;
    while i < lessons.len()
        invariant
            i <= lessons@.len(),
            all == lessons_view(lessons@),
            strictly_sorted(texts(list@)),
            forall|group: Seq<char>| #[trigger]
                texts(list@).contains(group) <==> has_lesson(all.take(i as int), group),
        decreases lessons@.len() - i,
    {
        let ghost before = texts(list@);
        let groups = &lessons[i].groups;
        let ghost own = all[i as int].groups;
        let mut j: usize = 0;
        while j < groups.len()
            invariant
                j <= groups@.len(),
                own == texts(groups@),
                strictly_sorted(texts(list@)),
                forall|group: Seq<char>| #[trigger]
                    texts(list@).contains(group) <==> (before.contains(group) || own.take(
                        j as int,
                    ).contains(group)),
            decreases groups@.len() - j,
        {
            insert_sorted(&mut list, groups[j].as_str());
            assert forall|group: Seq<char>| #[trigger]
                texts(list@).contains(group) <==> (before.contains(group) || own.take(
                    j + 1,
                ).contains(group)) by {
                let shorter = own.take(j as int);
                let longer = own.take(j + 1);
                if shorter.contains(group) {
                    let k = choose|k: int| 0 <= k < shorter.len() && shorter[k] == group;
                    assert(longer[k] == group);
                }
                if group == own[j as int] {
                    assert(longer[j as int] == group);
                }
                if longer.contains(group) {
                    let k = choose|k: int| 0 <= k < longer.len() && longer[k] == group;
                    if k < j {
                        assert(shorter[k] == group);
                    }
                }
            }
            j += 1;
        }
        assert(own.take(j as int) =~= own);
        assert forall|group: Seq<char>| #[trigger]
            texts(list@).contains(group) <==> has_lesson(all.take(i + 1), group) by {
            let shorter = all.take(i as int);
            let longer = all.take(i + 1);
            if has_lesson(shorter, group) {
                let k = choose|k: int|
                    0 <= k < shorter.len() && (#[trigger] shorter[k]).groups.contains(group);
                assert(longer[k].groups.contains(group));
            }
            if own.contains(group) {
                assert(longer[i as int].groups.contains(group));
            }
            if has_lesson(longer, group) {
                let k = choose|k: int|
                    0 <= k < longer.len() && (#[trigger] longer[k]).groups.contains(group);
                if k < i {
                    assert(shorter[k].groups.contains(group));
                }
            }
        }
        i += 1;
    }
    assert(all.take(i as int) =~= all);
    proof {
        assert(lists_groups(texts(list@), all));
        assert(lists_groups(groups_of(all), all));
        lemma_sorted_texts_equal(texts(list@), groups_of(all));
    }
    list
}

/// What is written once an upload of a kind is confirmed.
pub open spec fn publish_plan(pending: PendingView, kind: UpdateKind) -> PublishPlanView {
    let publication = PublicationView {
        week_start: pending.week_start,
        week_end: pending.week_end,
        kind,
        diff: pending.diff,
    };
    PublishPlanView {
        publication,
        lessons: pending.lessons,
        notify_groups: match kind {
            UpdateKind::NewWeek => groups_of(pending.lessons),
            UpdateKind::Correction => pending.diff.changed_groups,
        },
        body: notice(publication),
    }
}

/// Where the confirmation of an upload stands.
#[derive(Debug)]
pub enum ConfirmStep {
    /// Is the person an administrator?
    AskAdmin,
    /// Which upload of that person waits under the identifier?
    AskPending,
    /// Which version of the week is published?
    AskCurrent { pending: PendingUpload, kind: UpdateKind },
    /// The upload is to be published.
    Publish(PublishPlan),
    /// The upload is not published.
    Refuse(ConfirmError),
}

/// The contents of a `ConfirmStep`.
pub enum ConfirmStepView {
    AskAdmin,
    AskPending,
    AskCurrent { pending: PendingView, kind: UpdateKind },
    Publish(PublishPlanView),
    Refuse(ConfirmErrorView),
}

impl View for ConfirmStep {
    type V = ConfirmStepView;

    open spec fn view(&self) -> ConfirmStepView {
        match *self {
            ConfirmStep::AskAdmin => ConfirmStepView::AskAdmin,
            ConfirmStep::AskPending => ConfirmStepView::AskPending,
            ConfirmStep::AskCurrent { pending, kind } => ConfirmStepView::AskCurrent {
                pending: pending@,
                kind,
            },
            ConfirmStep::Publish(plan) => ConfirmStepView::Publish(plan@),
            ConfirmStep::Refuse(error) => ConfirmStepView::Refuse(error@),
        }
    }
}

/// What the store answers.
pub enum ConfirmReply {
    Admin(bool),
    Pending(Option<PendingUpload>),
    Current(Option<u128>),
}

/// The contents of a `ConfirmReply`.
pub enum ConfirmReplyView {
    Admin(bool),
    Pending(Option<PendingView>),
    Current(Option<u128>),
}

impl View for ConfirmReply {
    type V = ConfirmReplyView;

    open spec fn view(&self) -> ConfirmReplyView {
        match *self {
            ConfirmReply::Admin(is_admin) => ConfirmReplyView::Admin(is_admin),
            ConfirmReply::Pending(pending) => ConfirmReplyView::Pending(
                match pending {
                    Some(pending) => Some(pending@),
                    None => None,
                },
            ),
            ConfirmReply::Current(version) => ConfirmReplyView::Current(version),
        }
    }
}

/// The step after a reply. A reply to another question changes nothing.
pub open spec fn after_confirm_reply(
    step: ConfirmStepView,
    reply: ConfirmReplyView,
) -> ConfirmStepView {
    match (step, reply) {
        (ConfirmStepView::AskAdmin, ConfirmReplyView::Admin(is_admin)) => {
            if is_admin {
                ConfirmStepView::AskPending
            } else {
                ConfirmStepView::Refuse(ConfirmErrorView::NotAdmin)
            }
        },
        (ConfirmStepView::AskPending, ConfirmReplyView::Pending(found)) => {
            match found {
                None => ConfirmStepView::Refuse(ConfirmErrorView::NotFound),
                Some(pending) => match kind_named(pending.update_kind) {
                    None => ConfirmStepView::Refuse(
                        ConfirmErrorView::UnknownKind(pending.update_kind),
                    ),
                    Some(kind) => ConfirmStepView::AskCurrent { pending, kind },
                },
            }
        },
        (ConfirmStepView::AskCurrent { pending, kind }, ConfirmReplyView::Current(current)) => {
            if current != pending.base_version {
                ConfirmStepView::Refuse(ConfirmErrorView::Changed)
            } else {
                ConfirmStepView::Publish(publish_plan(pending, kind))
            }
        },
        _ => step,
    }
}

fn same_version(a: Option<u128>, b: Option<u128>) -> (r: bool)
    ensures
        r == (a == b),
{
    match (a, b) {
        (Some(a), Some(b)) => a == b,
        (None, None) => true,
        _ => false,
    }
}

/// The step after a reply.
pub fn next_confirm(step: ConfirmStep, reply: ConfirmReply) -> (r: ConfirmStep)
    ensures
        r@ == after_confirm_reply(step@, reply@),
{
    match (step, reply) {
        (ConfirmStep::AskAdmin, ConfirmReply::Admin(is_admin)) => {
            if is_admin {
                ConfirmStep::AskPending
            } else {
                ConfirmStep::Refuse(ConfirmError::NotAdmin)
            }
        },
        (ConfirmStep::AskPending, ConfirmReply::Pending(found)) => {
            match found {
                None => ConfirmStep::Refuse(ConfirmError::NotFound),
                Some(pending) => match parse_update_kind(pending.update_kind.as_str()) {
                    None => ConfirmStep::Refuse(ConfirmError::UnknownKind(pending.update_kind)),
                    Some(kind) => ConfirmStep::AskCurrent { pending, kind },
                },
            }
        },
        (ConfirmStep::AskCurrent { pending, kind }, ConfirmReply::Current(current)) => {
            if !same_version(current, pending.base_version) {
                return ConfirmStep::Refuse(ConfirmError::Changed);
            }
            let notify_groups = match kind {
                UpdateKind::NewWeek => all_groups(&pending.lessons),
                UpdateKind::Correction => copy_texts(&pending.diff.changed_groups),
            };
            let body = notification_text(
                kind,
                pending.week_start,
                pending.week_end,
                &pending.diff,
            );
            ConfirmStep::Publish(
                PublishPlan {
                    publication: Publication {
                        week_start: pending.week_start,
                        week_end: pending.week_end,
                        kind,
                        diff: pending.diff,
                    },
                    lessons: pending.lessons,
                    notify_groups,
                    body,
                },
            )
        },
        (step, _) => step,
    }
}

/// The step after a number of replies.
pub open spec fn after_confirm_replies(replies: Seq<ConfirmReplyView>) -> ConfirmStepView
    decreases replies.len(),
{
    if replies.len() == 0 {
        ConfirmStepView::AskAdmin
    } else {
        after_confirm_reply(after_confirm_replies(replies.drop_last()), replies.last())
    }
}

proof fn lemma_earlier_replies<T>(replies: Seq<T>)
    requires
        replies.len() > 0,
    ensures
        forall|reply: T| #[trigger]
            replies.drop_last().contains(reply) ==> replies.contains(reply),
        replies.contains(replies.last()),
{
    let before = replies.drop_last();
    assert forall|reply: T| #[trigger] before.contains(reply) implies replies.contains(reply) by {
        let i = choose|i: int| 0 <= i < before.len() && before[i] == reply;
        assert(replies[i] == reply);
    }
    assert(replies[replies.len() - 1] == replies.last());
}

/// Publishing is exclusive: whatever the store answers, what is published was confirmed by an
/// administrator, is the very upload that waited, and rests on the version that its preview was
/// compared with.
pub proof fn only_current_uploads_are_published(replies: Seq<ConfirmReplyView>)
    ensures
        after_confirm_replies(replies) matches ConfirmStepView::Publish(plan) ==> {
            &&& replies.contains(ConfirmReplyView::Admin(true))
            &&& exists|pending: PendingView|
                {
                    &&& #[trigger] replies.contains(ConfirmReplyView::Pending(Some(pending)))
                    &&& replies.contains(ConfirmReplyView::Current(pending.base_version))
                    &&& kind_named(pending.update_kind) == Some(plan.publication.kind)
                    &&& plan == publish_plan(pending, plan.publication.kind)
                }
        },
        after_confirm_replies(replies) matches ConfirmStepView::AskCurrent { pending, kind } ==> {
            &&& replies.contains(ConfirmReplyView::Admin(true))
            &&& replies.contains(ConfirmReplyView::Pending(Some(pending)))
            &&& kind_named(pending.update_kind) == Some(kind)
        },
        after_confirm_replies(replies) is AskPending ==> replies.contains(
            ConfirmReplyView::Admin(true),
        ),
    decreases replies.len(),
{
    if replies.len() > 0 {
        let before = replies.drop_last();
        only_current_uploads_are_published(before);
        lemma_earlier_replies(replies);
        match (after_confirm_replies(before), replies.last()) {
            (
                ConfirmStepView::AskCurrent { pending, kind },
                ConfirmReplyView::Current(current),
            ) => {
                if current == pending.base_version {
                    assert(replies.contains(ConfirmReplyView::Pending(Some(pending))));
                    assert(after_confirm_replies(replies) == ConfirmStepView::Publish(
                        publish_plan(pending, kind),
                    ));
                }
            },
            _ => {},
        }
    }
}

/// A new week changes every group that has a lesson in it: those who are told of it are those
/// whom the comparison with an empty week names.
pub proof fn new_week_concerns_every_group(
    diff: DiffView,
    list: Seq<Seq<char>>,
    lessons: Seq<LessonView>,
)
    requires
        is_diff(diff, seq![], lessons),
        lists_groups(list, lessons),
    ensures
        diff.changed_groups == list,
{
    let none: Seq<LessonView> = seq![];
    assert forall|group: Seq<char>| #[trigger]
        diff.changed_groups.contains(group) <==> list.contains(group) by {
        if has_lesson(lessons, group) {
            let i = choose|i: int|
                0 <= i < lessons.len() && (#[trigger] lessons[i]).groups.contains(group);
            assert(is_only_in(lessons[i], lessons, none));
            assert(group_differs(group, lessons, none));
        }
        if group_differs(group, lessons, none) {
            let lesson = choose|lesson: LessonView| #[trigger]
                is_only_in(lesson, lessons, none) && lesson.groups.contains(group);
            let i = choose|i: int| 0 <= i < lessons.len() && lessons[i] == lesson;
            assert(lessons[i].groups.contains(group));
        }
    }
    lemma_sorted_texts_equal(diff.changed_groups, list);
}

/// What is kept rests on what the store answered: an upload is kept as a new week only after the
/// store answered that no version of the week is published, and then with what changes from an empty
/// week; otherwise it is a correction of the very version that the store named, with what changes
/// from lessons that the store gave.
pub proof fn kept_upload_rests_on_the_published_version(
    replies: Seq<PreviewReplyView>,
    lessons: Seq<LessonView>,
)
    ensures
        after_preview_replies(replies, lessons) matches PreviewStepView::Save {
            update,
            base_version,
        } ==> match base_version {
            None => {
                &&& update.kind == UpdateKind::NewWeek
                &&& replies.contains(PreviewReplyView::Current(None))
                &&& update.diff == diff_of(seq![], lessons)
            },
            Some(version) => {
                &&& update.kind == UpdateKind::Correction
                &&& replies.contains(PreviewReplyView::Current(Some(version)))
                &&& exists|previous: Seq<LessonView>| #[trigger]
                    replies.contains(PreviewReplyView::Lessons(previous)) && update.diff == diff_of(
                        previous,
                        lessons,
                    )
            },
        },
        after_preview_replies(replies, lessons) matches PreviewStepView::AskLessons {
            version,
            ..
        } ==> replies.contains(PreviewReplyView::Current(Some(version))),
    decreases replies.len(),
{
    if replies.len() > 0 {
        let before = replies.drop_last();
        kept_upload_rests_on_the_published_version(before, lessons);
        lemma_earlier_replies(replies);
        match (after_preview_replies(before, lessons), replies.last()) {
            (PreviewStepView::AskLessons { .. }, PreviewReplyView::Lessons(previous)) => {
                assert(replies.contains(PreviewReplyView::Lessons(previous)));
            },
            (PreviewStepView::Save { update, base_version }, _) => {
                if base_version is Some {
                    let previous = choose|previous: Seq<LessonView>| #[trigger]
                        before.contains(PreviewReplyView::Lessons(previous)) && update.diff
                            == diff_of(previous, lessons);
                    assert(replies.contains(PreviewReplyView::Lessons(previous)));
                }
            },
            _ => {},
        }
    }
}

proof fn lemma_preview_three(
    lessons: Seq<LessonView>,
    first: PreviewReplyView,
    second: PreviewReplyView,
    third: PreviewReplyView,
)
    ensures
        after_preview_replies(seq![first], lessons) == after_preview_reply(
            PreviewStepView::AskAdmin,
            first,
            lessons,
        ),
        after_preview_replies(seq![first, second], lessons) == after_preview_reply(
            after_preview_replies(seq![first], lessons),
            second,
            lessons,
        ),
        after_preview_replies(seq![first, second, third], lessons) == after_preview_reply(
            after_preview_replies(seq![first, second], lessons),
            third,
            lessons,
        ),
{
    let none: Seq<PreviewReplyView> = seq![];
    assert(seq![first].drop_last() =~= none);
    assert(after_preview_replies(none, lessons) == PreviewStepView::AskAdmin);
    assert(seq![first, second].drop_last() =~= seq![first]);
    assert(seq![first, second, third].drop_last() =~= seq![first, second]);
}

/// A week that was never published is offered as a new one: where an administrator brings a valid
/// timetable whose file was not replaced, and no version of its week is published, the timetable is
/// kept for that week, with no base version and everything in it as a change.
pub proof fn unpublished_week_is_kept_as_new(
    lessons: Seq<LessonView>,
    was_published: bool,
    is_current_file: bool,
    diff: DiffView,
)
    requires
        week_of(lessons) is Ok,
        !was_published || is_current_file,
        is_diff(diff, seq![], lessons),
    ensures
        after_preview_replies(
            seq![
                PreviewReplyView::Admin(true),
                PreviewReplyView::File { was_published, is_current_file },
                PreviewReplyView::Current(None),
            ],
            lessons,
        ) == (PreviewStepView::Save {
            update: PublicationView {
                week_start: week_of(lessons)->Ok_0.0,
                week_end: week_of(lessons)->Ok_0.1,
                kind: UpdateKind::NewWeek,
                diff,
            },
            base_version: None,
        }),
{
    lemma_preview_three(
        lessons,
        PreviewReplyView::Admin(true),
        PreviewReplyView::File { was_published, is_current_file },
        PreviewReplyView::Current(None),
    );
    crate::domain::difference_is_unique(diff, seq![], lessons);
}

/// A published week is corrected: where the store names a version of the week, its lessons are asked
/// for, and the timetable is kept as a correction of that version if some lesson of a group stands in
/// only one of the two, and is refused otherwise.
pub proof fn published_week_is_corrected(
    lessons: Seq<LessonView>,
    was_published: bool,
    is_current_file: bool,
    version: u128,
    previous: Seq<LessonView>,
    diff: DiffView,
)
    requires
        week_of(lessons) is Ok,
        !was_published || is_current_file,
        is_diff(diff, previous, lessons),
    ensures
        ({
            let asked = after_preview_replies(
                seq![
                    PreviewReplyView::Admin(true),
                    PreviewReplyView::File { was_published, is_current_file },
                    PreviewReplyView::Current(Some(version)),
                ],
                lessons,
            );
            let answered = after_preview_reply(asked, PreviewReplyView::Lessons(previous), lessons);
            let changed = exists|lesson: LessonView|
                {
                    &&& lesson.groups.len() > 0
                    &&& #[trigger] previous.contains(lesson) != lessons.contains(lesson)
                };
            &&& asked is AskLessons
            &&& changed ==> answered == (PreviewStepView::Save {
                update: PublicationView {
                    week_start: week_of(lessons)->Ok_0.0,
                    week_end: week_of(lessons)->Ok_0.1,
                    kind: UpdateKind::Correction,
                    diff,
                },
                base_version: Some(version),
            })
            &&& !changed && is_current_file ==> answered == PreviewStepView::Refuse(
                UploadError::AlreadyPublished,
            )
            &&& !changed && !is_current_file ==> answered == PreviewStepView::Refuse(
                UploadError::NoChanges,
            )
        }),
{
    lemma_preview_three(
        lessons,
        PreviewReplyView::Admin(true),
        PreviewReplyView::File { was_published, is_current_file },
        PreviewReplyView::Current(Some(version)),
    );
    crate::domain::difference_is_unique(diff, previous, lessons);
    if exists|lesson: LessonView|
        {
            &&& lesson.groups.len() > 0
            &&& #[trigger] previous.contains(lesson) != lessons.contains(lesson)
        } {
        let lesson = choose|lesson: LessonView|
            {
                &&& lesson.groups.len() > 0
                &&& #[trigger] previous.contains(lesson) != lessons.contains(lesson)
            };
        let group = lesson.groups[0];
        assert(lesson.groups.contains(group));
        crate::domain::difference_names_what_changed(previous, lessons, diff, group, lesson.date);
        assert(diff.changed_groups.contains(group));
    } else if diff.changed_groups.len() > 0 {
        let group = diff.changed_groups[0];
        assert(diff.changed_groups.contains(group));
        let date = lessons[0].date;
        crate::domain::difference_names_what_changed(previous, lessons, diff, group, date);
        let lesson = choose|lesson: LessonView|
            {
                &&& lesson.groups.contains(group)
                &&& #[trigger] previous.contains(lesson) != lessons.contains(lesson)
            };
        assert(lesson.groups.len() > 0);
    }
}

/// A preview is refused for the right reason: the person is no administrator, the timetable is not
/// one of a week, or its file was published and has been replaced.
pub proof fn preview_is_refused_for_its_fault(
    lessons: Seq<LessonView>,
    is_admin: bool,
    was_published: bool,
    is_current_file: bool,
)
    ensures
        ({
            let admin = PreviewReplyView::Admin(is_admin);
            let file = PreviewReplyView::File { was_published, is_current_file };
            let first = after_preview_replies(seq![admin], lessons);
            let second = after_preview_replies(seq![admin, file], lessons);
            &&& !is_admin ==> first == PreviewStepView::Refuse(UploadError::NotAdmin) && second
                == first
            &&& is_admin ==> (week_of(lessons) matches Err(error) ==> first
                == PreviewStepView::Refuse(UploadError::Schedule(error)) && second == first)
            &&& is_admin && week_of(lessons) is Ok ==> first is AskFile && (if was_published
                && !is_current_file {
                second == PreviewStepView::Refuse(UploadError::Superseded)
            } else {
                second is AskCurrent
            })
        }),
{
    let admin = PreviewReplyView::Admin(is_admin);
    let file = PreviewReplyView::File { was_published, is_current_file };
    lemma_preview_three(lessons, admin, file, file);
}

proof fn lemma_confirm_three(
    first: ConfirmReplyView,
    second: ConfirmReplyView,
    third: ConfirmReplyView,
)
    ensures
        after_confirm_replies(seq![first]) == after_confirm_reply(ConfirmStepView::AskAdmin, first),
        after_confirm_replies(seq![first, second]) == after_confirm_reply(
            after_confirm_replies(seq![first]),
            second,
        ),
        after_confirm_replies(seq![first, second, third]) == after_confirm_reply(
            after_confirm_replies(seq![first, second]),
            third,
        ),
{
    let none: Seq<ConfirmReplyView> = seq![];
    assert(seq![first].drop_last() =~= none);
    assert(after_confirm_replies(none) == ConfirmStepView::AskAdmin);
    assert(seq![first, second].drop_last() =~= seq![first]);
    assert(seq![first, second, third].drop_last() =~= seq![first, second]);
}

/// A waiting upload is published as it is: after an administrator confirmed it, and where the
/// published version is still the one of its preview, its lessons are published for its week, and
/// those who are told are, for a new week, the groups that have a lesson, and for a correction the
/// groups that it changes. Otherwise it is not published.
pub proof fn confirmed_upload_is_published_as_it_is(
    pending: PendingView,
    kind: UpdateKind,
    current: Option<u128>,
    list: Seq<Seq<char>>,
)
    requires
        pending.update_kind == kind.name(),
        lists_groups(list, pending.lessons),
    ensures
        ({
            let step = after_confirm_replies(
                seq![
                    ConfirmReplyView::Admin(true),
                    ConfirmReplyView::Pending(Some(pending)),
                    ConfirmReplyView::Current(current),
                ],
            );
            &&& current != pending.base_version ==> step == ConfirmStepView::Refuse(
                ConfirmErrorView::Changed,
            )
            &&& current == pending.base_version ==> {
                &&& step matches ConfirmStepView::Publish(plan)
                &&& plan.lessons == pending.lessons
                &&& plan.publication.week_start == pending.week_start
                &&& plan.publication.week_end == pending.week_end
                &&& plan.publication.kind == kind
                &&& plan.publication.diff == pending.diff
                &&& kind == UpdateKind::NewWeek ==> forall|group: Seq<char>| #[trigger]
                    plan.notify_groups.contains(group) <==> exists|i: int|
                        0 <= i < pending.lessons.len() && (
                        #[trigger] pending.lessons[i]).groups.contains(group)
                &&& kind == UpdateKind::Correction ==> plan.notify_groups
                    == pending.diff.changed_groups
            }
        }),
{
    lemma_confirm_three(
        ConfirmReplyView::Admin(true),
        ConfirmReplyView::Pending(Some(pending)),
        ConfirmReplyView::Current(current),
    );
    crate::store::kind_round_trips(kind);
    assert(lists_groups(groups_of(pending.lessons), pending.lessons));
    let told = groups_of(pending.lessons);
    assert forall|group: Seq<char>| #[trigger] told.contains(group) <==> exists|i: int|
        0 <= i < pending.lessons.len() && (#[trigger] pending.lessons[i]).groups.contains(group) by {
        assert(told.contains(group) <==> has_lesson(pending.lessons, group));
    }
}

/// A confirmation is refused for the right reason: the person is no administrator, no upload waits
/// under the identifier, or it is of no known kind.
pub proof fn confirmation_is_refused_for_its_fault(is_admin: bool, found: Option<PendingView>)
    ensures
        ({
            let admin = ConfirmReplyView::Admin(is_admin);
            let waiting = ConfirmReplyView::Pending(found);
            let step = after_confirm_replies(seq![admin, waiting]);
            &&& !is_admin ==> step == ConfirmStepView::Refuse(ConfirmErrorView::NotAdmin)
            &&& is_admin && found is None ==> step == ConfirmStepView::Refuse(
                ConfirmErrorView::NotFound,
            )
            &&& is_admin ==> (found matches Some(pending) ==> if pending.update_kind
                == UpdateKind::NewWeek.name() || pending.update_kind
                == UpdateKind::Correction.name() {
                step is AskCurrent
            } else {
                step == ConfirmStepView::Refuse(ConfirmErrorView::UnknownKind(pending.update_kind))
            })
        }),
{
    let admin = ConfirmReplyView::Admin(is_admin);
    let waiting = ConfirmReplyView::Pending(found);
    lemma_confirm_three(admin, waiting, waiting);
    crate::store::kind_round_trips(UpdateKind::NewWeek);
    crate::store::kind_round_trips(UpdateKind::Correction);
}

} // verus!
