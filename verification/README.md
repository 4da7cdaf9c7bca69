# codex_task

Runs the tasks of a `task.md` file with sub-agents, wave by wave, and shows them on a dashboard. The
decisions are a verified library; reading files, starting processes and drawing on the terminal are
ordinary Rust around it.

## The library (`src/`)

| Part | Modules |
| --- | --- |
| Text, ordering, maps, paths | `text`, `order`, `strmap`, `paths`, `slices` |
| Task files | `schema`, `frontmatter`, `error` |
| Dependencies and their waves | `graph`, `cycle`, `waves`, `dag` |
| Messages between tasks | `interagent`, `spool`, `routing` |
| Sub-agents | `command`, `events`, `signals`, `output`, `raw_output`, `subagent` |
| Running | `options`, `runner`, `attempt`, `execution` |
| Planning | `patterns`, `candidates`, `planner` |
| Dashboard | `keys`, `screen`, `logs`, `dashboard`, `render`, `multi_agent_dashboard`, `planner_panel` |

Work that alternates with the outside world is a state machine: a function takes what came of the
last action and says what is to be done next. `SubAgentRun`, `TaskRun`, `WaveRun` and `Execution` are
of this kind.

Functions named `law_...` state what holds of the library as a whole, such as that a task runs after
all tasks it depends on, or that each queued message is delivered once.

Calls into other crates stand behind small functions whose contracts are taken on trust. Their
comments begin with `Trusted:`.

## The program (`app/`)

`codex-task run <task.md>`, with `--ui` for the dashboard. See `app/cli.rs` for all flags.
