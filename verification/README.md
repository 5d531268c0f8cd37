# dnd_dashboard

A campaign dashboard for tabletop D&D 5e: party, characters, combat tracker,
world notes and session journal.

- `src/` is the verified library (Verus): dice notation and rolls, the 5e rule
  arithmetic (modifiers, proficiency, skills, saves, XP levels), character and
  combatant records, initiative order, turn advance/rewind, hit-point rules,
  JSON skill lists, quest status rules, form validation and permissions.
- `tests/` exercises the library on concrete values.
- `app/` is the web server around it: Axum, Leptos pages, SQLite through sqlx.
  It reads and writes the database and hands plain values to the library.
