# GateTrader

Automatically sell coins on gate.io.

`src/` is the library: what the trading client decides and computes, with contracts that Verus
proves. It performs no input or output.

- `amount`: amounts and prices, decimal numbers
- `sale`: when a balance is worth an order, what the order says, and what is shown of it
- `rest`: what goes over the REST API, and where requests go
- `ws`: the websocket client: who wants which messages, how requests are numbered and framed,
  when a connection counts as lost
- `trader`: which coins are sold, and what the keyboard does
- `console`, `text`, `json`: text for the terminal, the order of strings, JSON values

`app/` is the program around it: it connects, sends, receives, waits and prints. It loads a
`.env` file from its working directory and takes

    gatetrader --key <key> --secret <secret> [src-coin] [dst-coin]

where the coins default to ERG and USDT, and the key and the secret may also come from the
environment as KEY and SECRET.
