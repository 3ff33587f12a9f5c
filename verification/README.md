# fileserver_backup

A backup tool for file servers. It finds the volumes below a directory, packs
each into a `.tar.xz` archive named after the second in which it was begun, keeps
the archives in a local directory or on an SFTP server, restores volumes from
their newest archives, and removes old archives by a retention policy. A
scheduler does this whenever a cron expression says.

The rules are a library, verified with Verus. The program around it does the
input and output.

## The library

| Module | What it holds |
| --- | --- |
| `config` | settings and commands, and which settings are refused |
| `volumes` | names of volumes and archives, and the volumes in a directory |
| `clock` | the stamps that name archives, and waits |
| `size` | sizes such as `10GiB` |
| `retention` | which archives a policy removes |
| `jobs` | backing up, restoring and cleaning up, as series of requests |
| `runs` | what whole runs of jobs amount to |
| `packing` | what goes into an archive |
| `local`, `sftp` | where archives are kept and how they are listed |
| `connect` | the way from an address and secrets to an SFTP connection |
| `schedule`, `scheduler` | when runs are due, and the scheduler itself |
| `paths`, `lists`, `sorting`, `text` | paths, lists, the order of names, characters |
| `refusal` | what is refused, and with which message |

A job, a connection, the packing of an archive and the scheduler are machines:
each makes a request, and `resume` takes what came of it and says what is next.
Their contracts are stated over models, such as `jobs::RunState`, and `after`
says for every state and every answer what follows. For the scheduler `moves` does
so; which run it waits for is what `cron` gave for the time that was read, and
`Scheduler::plan` says what follows from each. What this amounts to over a whole
run is proved as laws, which are the public proof functions whose names begin with
`law_`.

What the library takes from other crates goes through a few declared items, each
with a comment that says what is claimed of it: the calendar of `chrono`, the
schedules of `cron` and the addresses of `url`.

## The program

`app/` reads the command line and the environment, and carries out the requests:
it walks directories, writes and unpacks archives, speaks SSH, reads the clock
and sleeps.
