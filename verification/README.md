# PrintHub

A shared print queue for an Elegoo Centauri Carbon 2: people upload models or G-code, the queue
starts each job when the printer, the bed, the nozzle, the loaded spools and the print windows
allow it, and a ledger keeps account of whose filament was used.

`src/` is the library. It holds every rule, and Verus checks each function against its contract:

- `accounts`, `auth`: users, sessions, invites, permissions, passwords, login throttling
- `inventory`, `stats`: spools, trays, the ledger, who owes whom
- `jobs`, `dispatcher`, `schedule`, `calendar`, `zone`: the queue, when a job may start, what
  becomes of it
- `slicer`, `gcode`, `preview`: profiles, slicing plans, pictures of prints
- `cc2`, `camera`, `fakeprinter`, `probe`: the printer's protocol, a stand-in for it, checks
- `wiki`, `web`: help pages, and what every page shows and every form does
- `text`, `decimal`, `float`, `num`, `json`, `lists`, `order`: what the others are built on

Amounts are integers: milligrams, thousandths of a cent, micrometres of nozzle. Fractions that the
printer sends are decimals, kept exactly. Tables are plain vectors that functions take and give
back changed.

`tests/` runs the library. `app/` is the program around it: command line, database, MQTT, HTTP,
camera, slicer process, and the drawing of previews.

A few functions of other crates and of `std` are called through contracts that nothing proves;
each says so in its doc comment, with what it claims.
