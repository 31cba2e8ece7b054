# twitch-1337

A Twitch chat bot whose rules are proved. It counts who says "1337" at 13:37 in Berlin,
keeps community pings, tracks flights, answers questions with a language model that
remembers, and posts scheduled messages.

`src/` is the library: every rule of the bot, written and verified with Verus.

| Module | What it states |
|---|---|
| `tracker_1337` | who counts in the daily minute, the announcement, the leaderboard |
| `ping` | pings: names, members, cooldowns, templates, who may trigger |
| `suspend`, `cooldown` | when a command is held back, and until when |
| `schedule`, `berlin`, `time` | intervals, windows of the day, local times |
| `flight_tracker`, `aviation` | phases of a flight, limits, announcements, what is overhead |
| `memory` | what is remembered, who may write it, how it is merged, dropped and shown |
| `llm`, `web_search`, `chat_history` | what is asked of a model and how its answers are read |
| `commands`, `dispatcher` | which command a message runs, and what it replies |
| `config`, `seventv`, `whisper`, ... | the rest of the rules |
| `text`, `json`, `table`, `order` | strings, JSON texts, ordered tables and sorting |

Strings are sequences of characters, tables are maps, and times are integers. Speeds,
positions and scores come as integers too; what needs floating point is in `app/`.

Outside code is called through a few functions whose contracts are trusted. Each says in
its comment what it calls and what it claims. The proof functions named `law_...` state
what holds across several functions.

`tests/` runs the library. `app/` is the program around it: connections, files, timers and
the services that are asked.
