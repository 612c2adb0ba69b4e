# Zügli

A 64×64 LED panel that counts down to the next departures at a Swiss stop.

`src/` is the library: what the panel draws, what the device answers, what it keeps, and what each
of its tasks does next. It is written in Verus: every function states what it returns or changes,
and the verifier proves it. Laws that span several functions stand beside them as public proof
functions.

| module | what it holds |
| --- | --- |
| `display` | the frame (`panel`), drawing primitives (`draw`), built-in screens (`screens`), custom layouts (`custom`), and the render loop's decisions |
| `poll`, `weather` | which departures are shown, and when to fetch |
| `portal`, `dhcp`, `wifi` | captive portal, and keeping the link up |
| `httpd`, `storage` | settings and layouts taken in, and kept |
| `mdns`, `sntp`, `localtime` | name, clock, Swiss local time |
| `shared`, `model`, `text`, `boot` | the state between tasks, the data types, bounded texts, the boot sequence |

`app/` is the firmware around it for an ESP32-S3: sockets, flash, radio, the panel driver and the
HTTP routes. `tests/` runs the library on concrete values.

Three things are taken from other crates on trust, each behind a small function with a contract of
its own: text and lines drawn by `embedded-graphics`, DHCP replies by `edge-dhcp`, and appending to
a bounded string by `heapless`.
