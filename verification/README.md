# clapboard

A clipboard manager for Wayland: it records what the primary selection and the
clipboard hold into a cache directory, and offers that history (with the user's
favourites) in a menu program, putting the chosen entry back on the clipboard.

- `src/` is the verified library: parsing of recording modes and XDG directory types,
  the configuration's defaults and paths, the layout of the cache (directory and file
  names of a recording), the entries that the menu offers and how the menu's answer
  is read back, and which recordings a history cleanup deletes.
- `app/` is the program around it: the command line, reading and writing the
  configuration file, the file system, the Wayland clipboard and the menu process.
