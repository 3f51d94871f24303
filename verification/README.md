# xmip-core-transport-mssql

SQL Server transport: one row of a query is one Stream, a send is one INSERT;
TDS 7.4 with SQL Server authentication.

`src/` is the protocol and the rules of both ends, written in Verus: every
reader is a function of the bytes it is given, every writer appends stated
bytes, and what one end writes is proved to be what the other reads.

| Module | What it holds |
|---|---|
| `wire` | packets, messages, integers and counted text |
| `prelogin`, `login`, `batch`, `token`, `column` | the payloads, both ways |
| `text`, `number`, `binary` | UTF-16 and UTF-8, decimal, the `0x` literal |
| `insert`, `target` | the statement a send writes and a session takes apart; where a send goes |
| `client`, `session` | each side of a conversation, from what arrived to what is sent |
| `conversation` | what the two sides make of each other |

`app/` holds the sockets: it connects, binds and accepts, and carries the bytes.
`tests/` runs both sides against each other in memory.
