# warp_ssh_manager

Import of OpenSSH client configuration into an SSH server list, and the
`ssh` command line for a saved server, written in Verus.

- `src/text.rs`: characters, whitespace and trimming as `str` does them,
  decimal numerals written and read back (`to_string`, `str::parse`).
- `src/ssh_config.rs`: `parse_ssh_config`, a line-by-line state machine over
  `~/.ssh/config`, with its specification and laws (one host per non-pattern
  `Host` line, comments and blank lines ignored, later directive wins).
- `src/types.rs`: the saved-server record.
- `src/ssh_command.rs`: `build_ssh_args` and `build_ssh_command_line`; the
  command line is proved to split back, in a POSIX shell, into exactly the
  arguments.
- `src/import_dialog.rs`: the import dialog's selection model, what each user
  action leads to, and the conversion of a config host into a server record.
- `app/lib.rs`: reading `~/.ssh/config` and performing the dialog's effects
  against a server repository.
