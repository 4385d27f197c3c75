# kalshi_maker

The decision core of a market maker for binary (YES/NO) prediction markets, verified with Verus.

`src/` holds the library. Every function states in its contract what it
returns or changes; of a reading of the clock nothing can be said but that it was taken.

- `bits`, `book_side`, `order_book`: the order book, with a bit mask of the occupied prices.
- `tracker`: the orders that rest at the exchange.
- `pairs`: first-in-first-out pairing of YES and NO contracts, with the profit of each pair.
- `sweep`: detection of aggressive one-sided flow.
- `quoting`, `reconcile`: the grid of bids that the position allows, and the way to it.
- `session`: what each message and each round calls for.
- `rest`, `rate`, `rotation`: requests, the pace of writes, and when to leave a market.
- `config`, `dotenv`, `numbers`, `text`: settings and how they are read.
- `clock`: the monotonic clock.

The modules whose names end in `_laws` state what holds across functions: that quotes never take the
position past its limit, that a delta is undone by the opposite one, that an executed plan leaves
exactly the wanted orders, and more.

`app/` is ordinary Rust around the library: the loops, the network, the environment, and prices in
floating point. The connection to the exchange itself is a trait, `Exchange`, that a program brings
along.
