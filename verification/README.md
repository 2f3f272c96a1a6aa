# welcome_bot

A Matrix bot that invites people into a set of rooms when they send a
trigger phrase (`!welcome` by default) in an allow-listed room.

The decisions are a Verus-verified library (`src/`):

- `config`: settings from environment values, with defaults and the order in
  which missing or bad values are reported;
- `room_list`: the comma-separated room-ID lists (trimmed, empty entries
  dropped, validated, de-duplicated);
- `gate`: which messages trigger a welcome (room allow-list, trigger phrase,
  per-sender debounce window);
- `invite_run`: the per-room invite sequence (look up or join, sync, key
  export, invite), as a state machine that the program drives;
- `startup`: session restore versus fresh login, and whether to import the
  room-key export;
- `text`, `number`, `room_id`: the calls into `str::trim`, `str::parse::<u64>`
  and `ruma::RoomId::parse`, with their contracts.

`app/main.rs` is the program around it: environment, files, and the Matrix
client.

`app/` uses matrix-sdk 0.19 and matrix-sdk-crypto 0.19, which need rustc 1.96
or later. They are not listed in `Cargo.toml`, whose dependencies build with
rustc 1.95; add them there to build the program.
