# leagueaccounts

A manager for several League of Legends accounts: an account list kept in
rank order, search and "friend Elo" filtering, import and export, rank
lookups on OP.GG, and keyboard shortcuts that copy or type an account's
credentials.

- `src/` is the library, verified with Verus: the account records and their
  order (`models`, `utils`), the list and its import and export
  (`account_manager`), the reading of OP.GG profile pages (`rank_fetcher`),
  the names under which passwords are filed (`credentials`), the table
  shortcuts and the auto-type key chord (`shortcuts`), the auto-type
  sequence (`auto_type`), the decisions of the window (`session`) and the
  string functions they are stated over (`text`).
- `app/` is the desktop program around it: the window, the files, the
  credential store, the network, the clipboard and synthetic key presses.
- `tests/` runs the library on concrete values.
