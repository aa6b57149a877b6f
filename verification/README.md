# kesko

The verified core of Kesko, an experimental robotics simulator built on
Bevy and Rapier.

- `src/` is the library, checked by Verus. It holds the decisions of the
  simulator: finding and dispatching the commands of a TCP request and
  framing the response, the simulator's and the physics' request handling,
  the names and link maps of multibodies, keyboard control of the built-in
  robots, the state of the multibody window and the composition of the
  plugins.
- `tests/` runs the library on concrete values.
- `app/` is the Bevy and Rapier side: components, systems, plugins, the
  TCP socket, JSON, the Python module and everything that computes in
  floating point. It hands plain values to the library and applies what
  it returns.
