# swine

A container runtime that executes untrusted Windows binaries through Wine, in
namespaces of their own or in a microVM. What the runtime decides is a verified
Verus library; what it does to the system is ordinary Rust around it.

* `src/` is the library. It plans: which namespaces a sandbox has, what is mounted
  where, which system calls are denied, what is written to control groups and
  identity maps, which command is started under which environment. Where decisions
  and system calls alternate (the supervisor, its child, the start of a microVM,
  a run from the command line), it holds the decisions as a step function.
* `app/` is the program. It performs the steps and hands back what became of them.
* `tests/` runs the library on concrete values.

What the library promises as a whole stands in its proof functions whose names
start with `law_`.

| Module | What it is about |
| --- | --- |
| `config` | profiles: their files, defaults and places |
| `dropzone` | the directory that is shown in the sandbox, and the consent to it |
| `launch` | a run, from the command line to the sandbox |
| `supervisor`, `report`, `cgroup` | the process that makes the sandbox and watches over it |
| `container`, `environ`, `gamescope` | the child, its command and its environment |
| `fs`, `plan`, `isolation` | the file system of the sandbox, and what it shows of the host |
| `security` | identity files, capabilities, and the system call filter |
| `microvm`, `guest` | the child that starts a microVM, and the first process in it |
| `path`, `text`, `sys` | paths, texts and the flags of the kernel |
