# campus_auth

Signs a computer in to a campus network whose gateway redirects to a web portal: it probes,
follows the redirect to the login page, fills in and submits the form of that page, and looks
whether the network is open. It can also list the devices that are online under an account, and
take this device offline.

`src/` holds the decisions, as functions from state and reply to the next request, what to log and
what to say. Every item in it is verified with Verus. `app/` holds what only the operating system
can do: sockets, the window, the data file, and the sealing of the password.

| module | what it holds |
| --- | --- |
| `text`, `utf16`, `ipv4`, `clock` | texts, encodings, addresses, dates and time stamps |
| `http` | requests and responses of HTTP/1.1 |
| `page`, `form` | the inputs of a login page, and the form that is submitted for it |
| `auth`, `detect`, `login` | probes, the search for the portal, and the course of a login |
| `json`, `selfsvc`, `offline` | the portal's self-service, and the two errands at it |
| `net` | network adapters, and which of them to send from |
| `crypto`, `store` | the sealed password, the settings and the log |
| `cli`, `gui`, `common` | the command line, the window, and what all share |

What the library relies on without proof stands with the function that makes the call: a few
functions of the standard library, `base64`, `encoding_rs` and `serde_json`.

The laws of the library are proof functions whose names begin with `law_`. Among them: a login
ends, submits the form at most once, succeeds only where a probe shows the network open, leaves an
account in use alone, and logs nothing of the password; only this device is ever taken offline; the
log never outgrows its room.
