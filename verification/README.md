# usbip

A user-space USB/IP server whose core is verified with Verus.

`src/` decides: what the bytes on a connection mean, which device a client
gets, when an URB is accepted, cancelled, retried and answered, what is asked
of libusb, who may connect, and what the command line says. It performs no
I/O. Every function states what it returns, and the laws that hold across
functions are proof functions named `law_*`.

| module           | what it decides                                            |
|------------------|------------------------------------------------------------|
| `usbip_protocol` | the messages and their bytes                               |
| `decode`         | commands on a byte stream                                  |
| `device`         | devices, interfaces and endpoints                          |
| `server`         | available and imported devices, the client allowlist       |
| `session`        | one connection, as a state machine                         |
| `submit`         | one URB, as a state machine                                |
| `transfer`       | libusb transfers, their results and their cancellation     |
| `host`           | descriptions of physical devices, and finding them again   |
| `cli`            | the arguments of `usbipd`                                  |
| `error`, `text`, `wire` | error numbers and messages, numbers as text, integers as bytes |

`app/` is the program `usbipd`: sockets, libusb, nusb and logging. It reports
what happens to the state machines and does what they say.

`tests/` runs the library on concrete values.
