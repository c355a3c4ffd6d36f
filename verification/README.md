# sulaco

A small process supervisor for containers. It runs the init processes of a
configuration, starts the services when all of them have ended, restarts services
that exit, and stops everything when it is told to or when a service asks for it by
exiting.

`src/` is a library in which every decision is made and verified with Verus. It does
no I/O: each operation takes plain values and answers with the actions to perform.
`app/` performs them: it reads the configuration file, spawns and signals processes,
runs timers and listens to signals.

- `unix`: signals, pids and the outcomes of `waitpid`
- `duration`, `names`: spans of time; maps keyed by names
- `spec`: the configuration and its defaults
- `event`, `action`: what the supervisor reacts to and what it asks for
- `process`: one supervised process
- `listen`: the tasks that wait for signals of the operating system
- `model`: the state and its operations as mathematical functions
- `state`: the executable state, proved to follow the model
- `laws`: what holds across operations
- `world`: what holds of every run, whatever happens in whatever order
