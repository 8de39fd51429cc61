# redirectionio

The filters that redirection.io applies to the responses of the requests its rules match,
verified with Verus.

- `src/` is the verified library: the HTML tokenizer (`html`); hosts, headers, queries,
  requests and the networks of trusted proxies (`http`); the header and body filters
  (`filter`); markers and their regular expressions (`marker`, `regex`); the trace of the
  units that acted (`action`); and the descriptions of the rules (`api`, `router`,
  `router_config`).
  The content encodings of the body (gzip, deflate, brotli) are decoded and encoded there
  too, with the streaming writers of flate2 and brotli. The Markdown filter holds an HTML
  body to its end and hands it out for conversion; the conversion itself is the caller's.
- `app/` holds what runs around it: the lol_html rewriter and its handlers, the C interface
  of buffers, the parsing of socket addresses, and the serialised forms of headers and
  markers.
- `tests/` runs the library on concrete inputs.

The HTML prepend filter is the one that the list of body filters builds: a CSS selector, a
content, an id, a target hash, the trace and the captured variables, with handlers that
lol_html runs on each element the selector matches. The older form of it, which walks an
element tree with `enter`, `leave` and `first` and buffers the element, is not kept; the
function on HTML text that it relied on, `prepend_child`, is, and is verified. The `before`
filter that the list names is built as the list describes it: a selector, and a content put
before each element the selector matches.
