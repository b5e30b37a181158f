# bridge_scrims

A Discord bot for the Bridge Scrims community, with its decision logic verified by
Verus.

- `src/` is the verified library: parsing of durations, UUIDs and channel names, the
  texts and embeds the bot sends, role arithmetic for bans and freezes, cooldowns,
  team building, ticket and reaction rules, and the decisions the event handlers
  make. Every public function states its result in `ensures`; the laws that relate
  several functions are public proof functions (`lemma_*`).
- `app/` is the bot itself: it connects to Discord (serenity) and PostgreSQL (sqlx),
  reads each event into plain values, asks the library what to do, and does it.
- `tests/` runs the library on concrete values.

The calls into `regex`, `rand`, `time` and `base64` that the logic makes stand in
`src/` behind small trusted wrappers whose contracts are documented where they are
declared.
