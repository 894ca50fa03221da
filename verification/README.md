# ekg

A compact, in-place ping monitor whose logic is verified with
[Verus](https://github.com/verus-lang/verus).

- `src/` is the verified library:
  - `time`: spans and points in time;
  - `text`: decimal and fixed-point numbers as text;
  - `mean`: means and mean absolute deviations, exactly rounded;
  - `fit`: fitting text into a number of columns;
  - `stats`: rolling-window and session statistics, loss and the sparkline;
  - `display`: the panel and the outage lines, as terminal operations;
  - `screen`: what these operations do to a terminal of a given width, and that
    the panel fits it and stays in place;
  - `history`: what a whole run leaves on the terminal;
  - `recorder`: the JSON lines of `--log`;
  - `hooks`: the `--on-outage` / `--on-recovery` commands;
  - `pinger`: the decisions of the ping loop;
  - `session`: outages, the summary and the exit status.
- `app/` is the program around it: the command line, sockets, clocks, the
  terminal, the log file and the hook processes.
- `tests/` holds the tests of the library.

Proof functions whose names begin with `law_` state what holds of the library
as a whole.

## Usage

```bash
ekg                     # ping 1.1.1.1 every second
ekg -i 0.5 -w 120       # every 500ms, 120-sample window
ekg -m 5                # stop printing outage lines after 5 (0 = never)
ekg --log ping.jsonl    # append each sample + outage event as JSON lines
ekg -c 100 --max-loss 5 # send 100 pings, exit 0 up to 5% loss
```
