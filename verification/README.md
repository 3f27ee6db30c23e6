# herdr

The decisions of a terminal multiplexer for coding agents, verified with Verus.

- `startup`: the options of the client's command line, and what a client runs with.
- `endpoint_navigation`: clicks and keys that go between the workspaces and agents
  of several machines, over the client's state in `shell_state`.
- `agent_resume`: which agents of a restored session can be resumed, when, and how.
- `resume_round`: a round of resuming them, one step at a time.
- `shell_command`: the command line that a shell reads back as given words.
- `navigation_laws`, `resume_laws`, `run_laws`: what holds over more than one step.

The library does no I/O. `app/` carries its decisions out: it lays tabs out, starts
terminals, sends bytes, reads the clock and logs.
