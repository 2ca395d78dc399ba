# schedule

Weekly timetables of a university: read from Excel workbooks, queried from the command line, and
published to students by a Telegram bot.

The library under `src/` is verified with Verus. It holds what decides and computes, but for the
points of the charts, which are computed in floating point where they are drawn:

- reading: `compound`, `workbook`, `parser`, `lesson`, `date`, `files`, `text`;
- publishing: `domain` (weeks and differences), `upload` (previews and confirmations), `store`;
- talking: `handlers` with `private`, `group`, `callback` and `conversation` step through a
  conversation; `action` names what a step does and asks; `parts`, `format` and `phrases` make the
  texts;
- limiting and counting: `rate_limit`, `stats`, `metrics`, `service`, `clock`, `identity`;
- drawing: `dashboard`, `cards` and `draw` plan pictures; `pretty` prints lists.

A conversation is a sequence of steps. Each step gives effects, which are carried out in order, and
the next question; the answer leads to the next step. The same holds for the two dialogues with the
store, `upload::next_preview` and `upload::next_confirm`.

`app/` is ordinary Rust around the library: Telegram, PostgreSQL, Redis, the archive, HTTP, fonts and
files. Called as `schedule-bot` the program is the bot, otherwise the command line. The tables of the
database are under `extras/migrations`.

Calls into other crates that the logic needs (dates, time zones, digests, identifiers, workbooks) are
made by small functions marked `external_body`, whose comments say what is believed of them.
