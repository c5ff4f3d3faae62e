# hyper_palette

The verified model of a command palette host: menus and their validation,
navigation state (search, selection, submenus, going back), the resident
protocol session, the demo request, option parsing and theme decisions.

- `src/text.rs` — character-level primitives (words, substring search, ASCII
  case folding, code-point order) and the few std calls they rest on.
- `src/menu.rs` — items, menus, the ordered menu map, request validation.
- `src/state.rs` — the navigation state and its transitions over an abstract view.
- `src/laws.rs` — properties spanning several transitions.
- `src/session.rs` — the resident session and its protocol events.
- `src/demo.rs` — building the demo request from a fixture.
- `src/theme.rs`, `src/options.rs`, `src/labels.rs` — appearance, command line, view texts.
- `app/` — the executable: standard input/output, JSON, processes, locale.
