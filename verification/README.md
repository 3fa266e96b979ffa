# waygaps

Configurable hot corners and hot edges for wayland: small regions at the corners and edges of the
screen that run a command when the pointer enters or leaves them, clicks or scrolls in them, or is
pushed beyond the edge of the screen.

The library in `src/` holds the logic: what each event does, which requests and commands come of
it, and when the program ends, with its contracts proved by Verus. The program in `app/` is what is
left around it: it reads the configuration, sets up signals, puts requests and events on and off the
wire, and starts the commands.

| module | what it holds |
| --- | --- |
| `config` | the regions as the user configures them, and the keys of events |
| `seat` | pointers: pressure against an edge, and when it triggers |
| `gap` | the regions on the screen: where they lie, how they are drawn |
| `commands` | which commands an event runs |
| `app` | the program between two events, and what each event does |
| `laws` | what holds from one event to the next |
| `globals`, `objects`, `protocol` | the objects of the compositor, and requests as plain values |
| `utils` | the environment: variables, arguments, sockets, outputs, and the steps of the program |
| `surface`, `gaps` | a plainer corner, with one command for each kind of event |
| `log`, `heap` | lines of the log, and how the heap grows |
| `text`, `decimal`, `list` | text, numbers and searches |

Movements and scroll values are counted in 256ths of a pixel, as they come off the wire.
