# webrtc_transfer

File transfer between two peers over a WebRTC data channel, verified with Verus.

`src/` is the library. It holds no connection and no channel: each part is a
state machine that is handed an event and says what is to be done next, or a
function on plain values. Its contracts say exactly what comes of each event;
its laws, public proof functions whose names start with `law_`, say what holds
of whole runs.

| module | what it decides |
| --- | --- |
| `negotiation` | the steps by which the two sides agree on a connection |
| `sender` | what the sending side does once its channel is open |
| `assembly` | how the sending side puts the reply together again |
| `receiver`, `intake`, `reply` | what the receiving side does, reads and answers |
| `sdp`, `base64url` | session descriptions as short texts |
| `chunks`, `streaming` | cutting data into messages of 16 KiB, at once or as it comes in |
| `tokens`, `string_map` | a token for each selected file |
| `messages`, `peer` | what is reported, and how the peers connect |
| `buffer`, `text` | what is relied on in `bytes` and in the standard library |

`app/` drives the library with `tokio` and `webrtc`: it opens the connections,
sends and receives the messages, and turns them into JSON and back.

`tests/` runs the library on given values.
