# remiaft

`remiaft` manages self-hosted Minecraft servers from a terminal: as processes of
the machine, each below a supervisor and on a terminal of its own, or as Docker
containers.

The library in `src/` holds the logic and is verified with Verus. The program in
`app/` does what needs the system: files, sockets, terminals, processes and
threads.

| Module | What it holds |
| --- | --- |
| `config`, `groups`, `store` | the settings, the tree of groups, and where both are kept |
| `args` | settings that are given on the command line |
| `startup`, `process` | command lines, the files of running servers, and typed input |
| `docker`, `container`, `images`, `prepare`, `lifecycle`, `stopping` | servers in containers, and how they are started and stopped |
| `docker_api`, `json` | requests to the Docker engine, and its replies |
| `rcon` | the remote console and `server.properties` |
| `encoding`, `text_encoding`, `utf8` | console output in UTF-8 and in older encodings |
| `tui` | the state of the terminal interface, its keys, prompts and rows |
| `text`, `numbers`, `paths`, `collections`, `columns`, `i18n` | what the others are built on |

Contracts are stated over views: text is a sequence of characters, and each type
with contents of its own has a view without its representation. Public proof
functions state what holds across functions, such as that a packet reads back as
it was written, or that a UTF-8 stream is put together however it is cut.
