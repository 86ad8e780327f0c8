# ai_guard_gateway

A prompt-injection guard and OpenAI-compatible proxy, written as a Verus
library with a thin HTTP program around it.

* `src/` — the verified library:
  * `text`, `number`: character-level string work (trimming, case folding,
    prefix tests, UTF-8 lengths) and decimal numerals, read and written as the
    standard library does;
  * `json`: the JSON values that message contents hold, their mathematical
    model and their compact text;
  * `sanitizer`: detection and neutralisation of injection phrases with the
    `regex` crate;
  * `truncator`: cutting over-long arrays in tool results;
  * `context`: binding a conversation to the scope a request names;
  * `config`: the settings an environment describes;
  * `guard`: the stand-alone sanitising endpoint's verdict;
  * `proxy`: the decision on a chat-completion request (refusal, scope,
    truncation, provider, endpoint, authorisation, headers passed on).
* `app/` — the server: environment, HTTP routing, JSON (de)serialisation and
  the upstream call.
* `tests/` — tests of the library on concrete values.
