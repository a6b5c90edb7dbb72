# tock_drivers

Verified logic for a set of Tock drivers and board exercises.

- `src/capsules`: a log on flash (`log_storage`), with its layout, its state as seen from
  outside, and the laws that it keeps: entries come back in the order in which they were
  appended, a synced log is recovered from the volume, a circular log loses whole pages
  from its oldest end only.
- `src/chips`: SPI master, real-time counter and reset code of the nRF53, and the glue
  logic controller of the SAM4L, as the register accesses that they make.
- `src/boards`: exercises of the above, as state machines that are driven by events.
- `tests`: the library at work, with a simulated flash volume.
- `app`: register access, flash, pins, alarms, and the calls to clients.

The library performs no I/O. Drivers take the values of the registers that they read and
return the writes to perform; the log takes the contents of the volume and returns the
page operations to start.

Cookies and entry lengths are stored as words in the byte order of the machine, which is
given to the log when it is created.
