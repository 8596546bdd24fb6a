# earplugger

Restarts the Voicemeeter audio engine when a USB audio device or KVM switch
reconnects on Windows, when the PC wakes from sleep, or after an audio driver
fault: Task Scheduler triggers on those events run `earplugger restart
--silent`, which checks that Voicemeeter runs, waits for the USB handshake to
settle and asks Voicemeeter, through its Remote API library, to restart its
engine.

## Layout

- `src/` – the library, verified with Verus:
  - `options.rs` – the command word and the options (`--delay-ms`,
    `--device`, `--user`, `--silent`, `--wake` / `--no-wake`,
    `--disable-channel`);
  - `device.rs` – cleaning a Windows endpoint name down to its hardware name;
  - `task.rs` – the Task Scheduler XML (escaped event queries, the device
    name candidates, arguments) and the laws that it reads back as written;
  - `task_layout.rs` – the law that the first `<Arguments>` element of the
    task XML is the one that carries the delay;
  - `xml.rs` – XML escaping and its laws;
  - `flow.rs` – the decisions and console lines of `restart`, `install`,
    `uninstall` and `status`, one step at a time;
  - `voicemeeter.rs` – library lookup, process detection and the steps of a
    Remote API session (with the polls of the dirty flag);
  - `text.rs`, `decimal.rs`, `utf16.rs` – trimming and searching text, decimal
    numbers, UTF-16 in both directions.
- `app/` – the program: argument handling, console output, `schtasks`,
  `wevtutil`, `tasklist`, the registry and the Win32 calls, each step asked of
  the library.
- `tests/` – tests of the library on concrete values.
