# electrum_streaming_client

The logic of a client of Electrum servers, verified with Verus, and the ordinary Rust around it.

- `src/` is the library. It reads the fields of server responses, checks Merkle proofs, parses and
  writes server addresses, and makes the decisions of connecting over TCP and TLS. It performs no
  input or output: where a decision depends on a socket, a clock or a name lookup, a function takes
  what came of it and says what to do next. Functions state what they return, and the `law_*`
  functions state what holds of several of them together.
- `app/` performs the input and output, and reads responses with serde.
- `tests/` run the library, with bitcoin and rustls.

What is believed of bitcoin, rustls and std without proof stands in the functions of `src/` that are
marked `#[verifier::external_body]`, each with a comment that says what it is, and in one statement
on `String::push`. Errors from outside display as texts that are left open.
