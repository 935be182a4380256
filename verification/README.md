# workcheck

The verified core of a desktop application for recurring work: when work is due,
what is late, how much was done, when to remind of it, and which changes in an
issue tracker to be notified of. Every function of the library states what it
returns, and Verus proves it.

## The library

| Module | What it is about |
| --- | --- |
| `calendar`, `days`, `moment` | dates by day number, sorted lists and sets of days, instants |
| `text`, `json`, `settings` | texts, JSON values, settings by key |
| `recur`, `recur_laws`, `label`, `label_laws` | recurrence rules, their due dates, and the words for them |
| `model`, `checks`, `ranking` | records, what was noted of occurrences, stable sorting |
| `today`, `stats`, `pages` | late, due and upcoming work, rates and streaks, what is shown |
| `notify`, `tray`, `hotkey` | notifications, the tray icon, global shortcuts |
| `jira`, `jira_laws`, `poll`, `scan` | classifying changes in the issue tracker, asking it, polls |
| `schema` | tables, migrations and first contents of the database |

Properties that relate several functions are public proof functions whose names
begin with `law_`.

What is believed without proof stands in a few small functions and declarations:
calls into `chrono` in `calendar`, `moment` and `notify`, calls into `serde_json`
in `json`, and two functions of the standard library in `text`. Their comments
say what is claimed of each.

## Around it

`app/` is the application: the database, requests, windows, tray and shortcuts.
`tests/` holds the tests of the library.
