# tamichat

A shoutbox on top of the Polycentric protocol: a chat under the topic
`tamichat`, plus pages to inspect reference queries, explore the server, post
under any topic and manage the identity that posts.

## Layout

- `src/` is the library, written in Verus and verified:
  - `wire` is the protocol-buffer wire format; `keys`, `event`, `content` and
    `query` are the protocol's messages, each with an encoder, a decoder and a
    proof that decoding an encoding gives the message back.
  - `api` builds and signs events, the topic query and the bodies and
    addresses that the server is asked with, and reads its replies.
  - `chat` turns the server's answer into the chat, in time order.
  - `display` and `inspect` hold the text that the pages show.
  - `session` and `storage` hold the identity and its stored form.
  - `chat_page`, `post_page`, `account_page` and `query_page` are the pages as
    state machines.
- `app/` is the web application (Dioxus): it renders the pages, talks to the
  server and to the browser's local storage, and writes records as JSON.
- `tests/` runs the library on concrete values, and checks its wire format
  against the `prost` encoders.
