//! What the bot says.

use vstd::prelude::*;

verus! {

/// Said to someone who asks too often.
pub const TOO_MANY_REQUESTS: &'static str =
    "Слишком много запросов подряд. Подожди немного и попробуй ещё раз.";

/// The help in a private chat.
pub const HELP: &'static str =
    "Команды и меню:\n/start — начать или открыть меню\n/notifications — переключить ежедневные уведомления\n/admin_link — создать одноразовую ссылку администратора\n\nДля студентов доступны расписание на сегодня, на неделю и поиск по преподавателю или аудитории. В группах: /setgroup, /disable, /today, /week, /day.";

/// The help in a group chat.
pub const GROUP_HELP: &'static str =
    "Команды расписания в группе:\n/setgroup ИС11В — привязать группу (только администратор чата)\n/disable — отключить расписание (только администратор чата)\n/group — показать выбранную группу\n/today — расписание на сегодня\n/week — расписание на неделю\n/day 28.09.2026 — расписание на дату";

/// `/stats` is for administrators.
pub const STATS_FOR_ADMINS: &'static str = "Эта команда доступна только администратору.";

/// `/admin_link` is for administrators.
pub const LINK_FOR_ADMINS: &'static str = "Команда доступна только администратору.";

/// Uploads are for administrators.
pub const UPLOADS_FOR_ADMINS: &'static str = "Загружать расписание может только администратор.";

/// The dashboard is for administrators.
pub const DASHBOARD_FOR_ADMINS: &'static str = "Дашборд доступен администратору в личном чате.";

/// The button that turns daily messages on and off.
pub const NOTIFICATIONS_BUTTON: &'static str = "🔔 Уведомления";

/// The button of today's lessons.
pub const TODAY_BUTTON: &'static str = "📅 Сегодня";

/// The button of the week's lessons.
pub const WEEK_BUTTON: &'static str = "🗓️ На неделю";

/// The button of the search.
pub const SEARCH_BUTTON: &'static str = "🔎 Расширенный поиск";

/// Said to a message without text.
pub const SEND_GROUP_OR_BUTTON: &'static str = "Отправь название группы или выбери кнопку меню.";

/// Said while the kind of a search is open.
pub const CHOOSE_SEARCH_KIND: &'static str = "Выбери, что искать: преподавателя или аудиторию.";

/// Asked before the kinds of a search.
pub const SEARCH_QUESTION: &'static str = "Что ищем?";

/// Said to someone without a group.
pub const NAME_GROUP_FIRST: &'static str = "Сначала укажи свою группу, например ИС11В.";

/// Said to someone with a group.
pub const CHOOSE_ACTION: &'static str = "Выбери действие в меню.";

/// Said to someone without a group who wants to see lessons.
pub const NAME_GROUP_FOR_LESSONS: &'static str = "Напиши свою группу, чтобы я нашёл расписание.";

/// Said where a week has no lessons.
pub const NO_WEEK: &'static str = "Для этой группы пока нет опубликованного расписания.";

/// Said where a search finds nothing.
pub const NOTHING_FOUND: &'static str = "Совпадений не нашёл. Попробуй другой запрос.";

/// Said to a group that no timetable names.
pub const UNKNOWN_GROUP: &'static str =
    "Не нашёл такую группу в опубликованных расписаниях. Проверь написание и попробуй ещё раз.";

/// Said to an administrator without a group.
pub const ADMIN_WITHOUT_GROUP: &'static str =
    "Права администратора активны. Чтобы открыть расписание, напиши свою группу. Ты также можешь отправить Excel или создать ссылку командой /admin_link.";

/// Said to someone new.
pub const WELCOME: &'static str = "Привет! Напиши свою учебную группу.";

/// Which files are read.
pub const SUPPORTED_FILES: &'static str = "Поддерживаются файлы Excel .xls, .xlsx и .xlsb.";

/// Said to a file above the limit.
pub const FILE_TOO_LARGE: &'static str = "Файл больше лимита 15 МБ.";

/// Said where there is no archive.
pub const NO_ARCHIVE: &'static str =
    "Архив Excel ещё не настроен. Бот продолжает работать, но публикация расписания временно недоступна.";

/// Said where the rights of someone who disables a chat cannot be read.
pub const DISABLE_UNCHECKED: &'static str = "Не удалось проверить права администратора чата.";

/// Disabling is for the chat's administrators.
pub const DISABLE_FOR_ADMINS: &'static str =
    "Отключить расписание могут только администраторы чата.";

/// Said once a chat is disabled.
pub const DISABLED: &'static str =
    "✅ Команды расписания отключены для этого чата. Чтобы включить снова, администратор может вызвать /setgroup ИС11В.";

/// Said where a chat was not enabled.
pub const NOT_ENABLED: &'static str = "Для этого чата расписание уже не настроено.";

/// Said where the rights of someone who sets a chat's group cannot be read.
pub const SET_GROUP_UNCHECKED: &'static str =
    "Не удалось проверить права в чате. Убедись, что бот добавлен в группу и назначен администратором с минимальными разрешениями, затем повтори команду.";

/// Setting a chat's group is for the chat's administrators.
pub const SET_GROUP_FOR_ADMINS: &'static str =
    "Привязать учебную группу могут только администраторы чата.";

/// How `/setgroup` is used.
pub const SET_GROUP_USAGE: &'static str = "Использование: /setgroup ИС11В";

/// Said to a group that no timetable names, in a group chat.
pub const UNKNOWN_CHAT_GROUP: &'static str =
    "Такой группы нет в опубликованном расписании. Проверь написание.";

/// Said in a chat without a group.
pub const CHAT_WITHOUT_GROUP: &'static str =
    "Группа ещё не выбрана. Администратор чата может задать её командой /setgroup ИС11В.";

/// How `/day` is used.
pub const DAY_USAGE: &'static str = "Использование: /day 28.09.2026";

/// Said where no group waits to be confirmed.
pub const NO_PENDING_GROUP: &'static str =
    "Не нашёл ожидающее подтверждения. Напиши группу ещё раз.";

/// Said once a group is rejected.
pub const WRITE_RIGHT_GROUP: &'static str = "Хорошо, напиши правильную группу.";

/// Said once an upload is dropped.
pub const UPLOAD_CANCELLED: &'static str =
    "Загрузка отменена, опубликованное расписание не менялось.";

/// Said where an upload can no longer be dropped.
pub const UPLOAD_NOT_CANCELLED: &'static str =
    "Эту загрузку уже обработали или она принадлежит другому администратору.";

/// Said to a button that means nothing any more.
pub const STALE_BUTTON: &'static str =
    "Эта кнопка уже устарела. Используй меню или загрузи файл снова.";

/// A file made its reading break off.
pub const PARSING_BROKEN_OFF: &'static str = "задача парсинга завершилась аварийно";

} // verus!
