# sardips

The rules and bookkeeping of Sardips, a virtual-pet game with a stock market,
as a Verus library: the functions in `src/` carry contracts that Verus
proves. Five small wrappers are trusted rather than proved: they call
`flate2` and `base64` (in `save`) and std's `to_lowercase` (in
`stock_market`), and each states in its doc comment what its contract
assumes of that call.

- `src/` — the library. The market (`stock_market`, `exchange`, `listing`,
  `trader`), what the screens show and what their controls do (`stock_scene`,
  `stock_ticker`, `menus`, `dipdex`, `console`), the pets (`mood`, `breeding`,
  `minigames`, `inventory`), the clocks (`simulation`, `timer`) and saves
  (`save`, which calls `flate2` and `base64`); `rounding` reproduces in
  whole numbers the float roundings that the rules depend on.
- `tests/` — tests of the library on concrete values.
- `app/` — plain Rust around the library: the parts computed in floating point
  (valuation ratios, trader eagerness and prices, money formatting, mood
  scores) and the serde form of a save request.

Random draws (performance rolls, trader quantities, hatch rolls) are taken as
arguments, so each function is proved for every value drawn.
