# market_maker

A market maker for BTC futures on Deribit, with its order management system, its order books, and
the messages it exchanges; beside it Kraken's level 3 book and its checksum, and the ticker feed of
Binance.

`src/` is the library. Every function in it states what it returns or changes, and Verus proves it;
the public proof functions named `law_...` state what holds of several functions together. What the
library has from other crates stands behind small wrappers, whose contracts are taken on trust and
say so.

- `binary64`, `decimal`: numbers by their bits and digits.
- `ladder`, `string_map`, `seqs`, `text`: price levels in order, maps with text keys, and facts
  about sequences and texts.
- `json`, `rpc`, `session`: JSON values, requests and replies, and what is done about each thing
  that can happen on a connection.
- `auth`, `kraken`: signed requests.
- `order_book`, `kraken_level3`: the books.
- `oms_model`, `oms`: the order management system, as mathematics and as code.
- `orderhandler`, `marketmaker`: orders, and the market maker's decisions.
- `portfolio`, `volatility`, `instrument_names`, `binancefeed`: the feeds.
- `eventbucket`, `shared_state`, `sharedstate`: what the parts of a program share.

`app/` is the program around the library: connections, files, and the formulas in floating point.
