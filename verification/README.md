# orderbook_combiner

Combines the order books of Binance and Bitstamp for a pair and summarises the
ten best bids and asks of both exchanges, with the spread.

- `src/` is the verified library (Verus):
  - `decimal`: decimal texts to fixed-point integers (units of 10^-8);
  - `models`: the exchanges' messages, with prices and quantities as integers;
  - `binance_book`: the Binance book built from the REST snapshot and kept up
    to date from the diff. depth stream, and its ten best levels per side;
  - `summary`: the merge of both books into a summary;
  - `reconcile`: the decisions of the task that publishes summaries;
  - `stream`: stream addresses and what to do with each websocket frame;
  - `sorting`: the stable sort by price used for the Binance book.
- `app/` runs the tasks: websockets, the REST snapshot, channels and JSON.
- `tests/` exercises the library on concrete values.
