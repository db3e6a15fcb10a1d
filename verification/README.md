# ConnectDirect Precheck 0.2.0

A window that runs the precheck of IBM Connect:Direct on many Windows servers and reports
which of them can be patched. It reads only: it installs and changes nothing.

`src/` is the verified library, written in Verus:

- `text`: characters, splitting, trimming, ASCII case, decimal numbers, search.
- `model`: checks, rows, requests, and the verdict on a server.
- `servers`, `ports`: which lists of servers and ports are accepted.
- `query`: how the collector process of one server is watched and its answer accepted.
- `batch`: the rows of a batch while results come in, when it stops, and when it ends.
- `turns`: which query is started next, and how many are at work at once.
- `report`: the CSV table, the HTML page and the files of a report.
- `launch`: what the opener of a report is handed, and its outcome.
- `app`: the state of the window and what it shows.

`app/` is the program around it: the window, the PowerShell processes, the threads of a
batch and the files. It expects the collector script `precheck.ps1` beside the executable.

Verdicts: `NO APTO` when a check failed; otherwise `INCOMPLETO` when evidence is missing;
otherwise `CON OBSERVACIONES` when there are warnings; otherwise `APTO`.
