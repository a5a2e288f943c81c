# scrum_poker

A planning-poker board: a scrum master opens a room, developers join it with
the room code, and everyone votes. The server sends each room's users with
the cards hidden; it does not act on the message's event type.

`src/` is the verified library:

- `user` — users and roles (equality by name, the role's text and parsing);
- `message` — the messages between clients and the server;
- `rooms` — the server's rooms: joining, leaving, what a connection does with
  each message, and the laws that hold of them;
- `board` — the client: the login form, which of its fields are disabled,
  the event of the scrum master's button, and what a message from the server
  changes;
- `table`, `cards` — how the table is laid out: the two columns of voters, the
  most common vote, the cards and their order;
- `text` — text helpers: equality, decimal writing and reading, the order of
  names.

`app/` holds the WebSocket server (axum, tokio) and the browser client
(sycamore), which carry the messages as JSON, hold the signals and draw the
page; the decisions above are the library's.
