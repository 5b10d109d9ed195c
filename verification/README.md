# lapce_agent

The logic of an agent panel for an editor. The panel launches an external coding agent, talks to
it, shows what it does, and guards what it asks for.

`src/` is the verified library.

- `paths` - the workspace guard for the agent's file requests, and line slicing
- `command` - finding the program to spawn, and describing it in messages
- `prompt` - the text of a prompt with its editor context
- `mapping` - the agent's reports as events for the panel
- `permission` - permission requests that wait for the user
- `process` - when the agent's process tree is killed
- `fs` - reads and writes through the editor's open buffers
- `session` - one session: handshake, turns, file requests
- `manager` - starting, replacing and stopping sessions
- `item`, `state`, `panel` - what the panel shows and does
- `config` - the settings, and what a workspace may not set
- `keypress` - key presses as keymaps match them
- `events`, `assoc`, `text` - what the others share

`app/` is ordinary Rust around it: the disk, processes, threads, the connection to the agent, the
serialized forms of the library's types, and the panel's widgets. It tests what a library function
requires before it calls the function.

`tests/` runs the library with its outside crates.
