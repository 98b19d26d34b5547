# Bouedig

A recipe and grocery-list service (Axum over SQLite) with a mobile client
(Dioxus), whose rules live in a library verified with Verus.

- `src/` is the verified library: validation and normalisation of recipes, the
  layout in which a recipe is stored and the views rebuilt from stored rows,
  the naming, thumbnailing and serving of uploaded photos, the multipart
  upload format, the grocery list's grouping and `bought` flag, the trailing
  slash redirect under a base path, the server settings, and the mobile
  recipe editor (reordering, dialogs, what the form submits).
- `tests/` runs the library on concrete values.
- `app/` is the program around it: `bouedig` serves the HTTP API,
  `bouedig migrate` creates the database tables, `bouedig client` starts the
  mobile client.

Calls into `serde_json`, `image` and `uuid` stand in the library behind small
trusted wrappers whose contracts say what those crates document.
