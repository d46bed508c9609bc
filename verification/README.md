# gr3sync

Pull photos off a RICOH GR III without touching the camera: wake it and raise its
access point over Bluetooth, join that network, download what is new over HTTP, and
put everything back.

`src/` is the library, verified with Verus. It holds every decision: what the
camera's bytes mean, what to ask of it next, which files to download, what to write
down, what to show. It touches no radio, socket, disk or process.

`app/` is the program around it. It carries out what the library asks for and hands
back what came of it.

## How the two meet

What takes several steps is a *procedure*: a state that says what to do (`work`,
`op`), and goes on from the reply (`next`) to the next state or to a result. Its
meaning is a pair of spec functions, one for what each state asks and one for how it
goes on, so that statements about whole runs are statements about sequences of
replies. `accepts` and `fits` say whether a reply is one that the state can have.

| module | what it holds |
|---|---|
| `protocol` | UUIDs and value codecs of the Bluetooth profile |
| `ble` | choosing a camera, and the session with it |
| `camera` | the HTTP API, downloads, and selecting files |
| `netlink` | the host's Wi-Fi backends |
| `config`, `paths` | defaults, and where things lie |
| `state`, `textmap` | the ledger of what was downloaded |
| `sync` | the whole sync: `bring_up`, `pull`, `wifi`, `run`, and in `history` what holds of whole runs |
| `emulator` | a stand-in camera: its GATT table and its HTTP answers |
| `cli` | what arguments mean and what is shown: `render`, `report`, `doctor` |
| `json`, `text`, `hexadecimal`, `ids`, `error`, `procedure` | what the others share |

## What is taken on trust

Seven calls are believed rather than proved: `String::push`,
`String::from_utf8_lossy`, `str::to_lowercase`, the `Debug` form of a text, writing
and reading a UUID (`uuid`), and reading JSON (`serde_json`). Each stands by itself
in `text`, `ids` or `json`, with a comment that says what is claimed of it.
