# DEMIURGE

A small desktop: a tag-based window manager for X11 with its status bar, a Wayland sibling, the
screen locker GORDIAN_KNOT and the colour-temperature daemon ABRAXAS.

* `src/` is the library. It decides: which window stands where and is focused, what the bar shows
  and the prompt runs, which configuration is accepted, when the screen warms and the lock opens,
  and which system calls and files a confined process may use. Every item in it is verified with
  Verus; what it owes to other crates is stated on a few trusted items, each with a comment.
* `app/` is the program around it: X11, Wayland, D-Bus, DRM, files, processes, drawing and floating
  point. It hands the library plain values and performs what comes back.
* `tests/` runs the library.

Requests to the X server are values (`wm::Request`, `event::Ask`), floats cross the boundary as
their bit patterns, and the steps that alternate with the outside world (taking a console, dropping
privileges, the daemon's ring) are functions from state and event to the next state and action.
