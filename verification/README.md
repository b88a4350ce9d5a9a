# CodeCrab

CodeCrab is a small coding agent. This repository holds its logic as a verified
library, and the program around it.

- `src/` is the library. Every public function states in its contract what it returns
  or changes, as far as chance and the time of day do not decide it, and Verus proves
  it: conversation trees and sessions, scheduled jobs and
  the daemon that runs them, the requests to models and the streams that answer
  them, terminals and their screens, skills, tools, and the rules of the web server.
- `tests/` runs the library on concrete values.
- `app/` is the program: the command line, files, processes and the network. It asks
  the library what to do, does it, and tells the library what came of it.

Some functions of the library call other crates (`chrono`, `chrono-tz`, `croner`,
`rcgen`, `serde_json`, `sha2`, `uuid`). Each such call stands in a small function
whose contract is taken on trust; its comment says what is claimed of the crate.

Where an outside call hands back something that cannot be foreseen, such as the time
or a random id, a second function with a name that ends in `_at`, `_as` or `_with`
takes that value as an argument.
