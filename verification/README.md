# jebediah_explorer

Jebediah, the reckless cartographer: an explorer for the space game of
`common_game` that prefers unvisited planets, maps everything it meets and
collects resources on the side.

- `src/` is the verified library. `explorer/mapping.rs` is the galaxy map
  (visit counts and two-way links); `explorer/navigation.rs` picks the next
  hop (an unvisited neighbor, else the first step of a shortest known path to
  the nearest unvisited planet, else the least visited neighbor), with the
  breadth-first search proved in `explorer/search_facts.rs`;
  `explorer/mood.rs`, `explorer/bag.rs` and `explorer/resources.rs` hold the
  phrases, the collected resources and the resource kinds;
  `explorer/ai.rs` is the decision core that turns each orchestrator message
  into the messages to send.
- `app/` owns the channels, the logging and the thread loop, and converts
  between the game's message types and the library's plain values.
- `tests/` exercises the library.
