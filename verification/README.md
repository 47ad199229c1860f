# Aegira

A recovery engine that follows a log, matches the incidents in it against rules,
restarts the service or container that a rule names, and checks that it is back.

`src/` is the library. It decides: which rules are active, which rule answers an
incident, which commands are run, when a repair is believed, when an incident is
skipped, and what the incident log says. Its functions carry contracts that Verus
proves. Text operations of the standard library are specified in `src/text.rs`.

| module     | subject                                                        |
|------------|----------------------------------------------------------------|
| `text`     | text operations and their meaning, log lines                    |
| `rule`     | rules, and which of them are fit for use                        |
| `loading`  | the rules of a directory                                        |
| `file_order` | the order in which the files of a directory are taken         |
| `catalog`  | the active rules of all sources                                 |
| `sorting`  | the order of the active rules                                   |
| `matching` | scores, and the rule that answers an incident                   |
| `cooldown` | incidents that have been answered a short while ago             |
| `incident` | what is done about an incident                                  |
| `command`  | where programs are found, when a running command is given up    |
| `recovery` | the commands that repair and check, and when a repair is believed |
| `tail`     | following the monitored log                                     |
| `engine`   | reloading, rotation, notices                                    |
| `paths`    | the directories that rules are looked for in                    |

`app/` is the program around it: files, processes, the clock and the JSON of the
rule files.
