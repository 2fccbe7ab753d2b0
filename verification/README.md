# process

Child processes: describing them, launching them, waiting for them, and saying
what went wrong. The library is verified with Verus; `app/` runs it on Unix with
`tokio` and `portable-pty`.

| module | what it holds |
| --- | --- |
| `cmd` | `Cmd`: building a command, what executing it comes to, checking its status, color variables |
| `command` | `Command`: the process to launch; `Stdio` |
| `env` | the changes to the environment, in the order of the variables' names |
| `display` | how a command is shown: which arguments, and where they are cut |
| `status` | exit statuses, output, errors, and how they are put in words |
| `child` | a launched process: taking it to be waited for, collecting output from a terminal |
| `path` | when two paths are the same |
| `text`, `split` | text out of bytes, lines, white space |
| `noise` | what makes no difference to the lines that are kept |
| `style`, `bytes` | terminal styling; byte strings and their order |

Public proof functions whose names begin with `law_` state what holds of the
library beyond single calls.

Not proved, but stated as contracts: `owo_colors` (`red`, `cyan`, `dimmed`),
`anstream::ColorChoice::global`, and of the standard library
`String::from_utf8_lossy`, `String::push` and `str::trim`.
