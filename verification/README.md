# rwinscp

The logic of rwinSCP, a desktop client for SSH, SFTP, SCP, FTP and S3,
as a library verified with Verus, and the program around it.

- `src/` — the verified library: connection profiles, the saved-hosts
  record, the application state and its reducer (what each action of the
  interface and each event of a worker does, and what it asks the caller to
  carry out), the transfer queue, listings from FTP, SFTP and S3, host-key
  decisions, the workers' protocols as step functions (the S3 requests and
  their pagination, the interactive shell's loop, and the order of a
  worker's events), the terminal buffer and keystroke encoding, and the update
  check's version comparison.
- `tests/` — tests of the library on concrete values.
- `app/` — the program: the egui window, the workers that send what the
  step functions ask for and hand back the replies,
  the hosts file and keychain, and the update check's network request. It
  hands the library plain values and carries out the effects it returns.
