# Netchecker

Netchecker finds out why the internet does not work. It shows the chain from the
computer to a site, marks the stretch on which the connection is lost, and
explains the cause twice: in plain words, and in the words of a network
engineer.

- `src/` is the verified library: the packets (ICMP, DNS, TLS, HTTP,
  certificates), the decisions of the diagnosis, the list of targets, the
  watching of the connection, the report and the state of the window. Every
  function has a contract, and Verus proves it.
- `app/` is the program round it: sockets, the system's interfaces and
  processes, the settings file, the tray icon and the drawing of the window.
- `tests/` runs the library on concrete values.

The library never does input or output. A step that needs the network is split:
the library says what to ask, the program asks, and the library decides on the
answer.
