# hurl

The logic of the Hurl HTTP tool as a library whose functions carry contracts proved
with Verus: the cookie jar and Netscape cookie files, HTTP requests and responses and
their text, the JSON reader of Hurl bodies and the evaluation of their templates, the
runner's decisions (which entry runs next, the results of entries and runs, the
exit code: `runner::file`, `runner::entry`), requests, queries, predicates, asserts and captures on a
response, JSONPath, the HTML of predicates, the reading of
session logs, error reports, command line options, and the conversion of curl command
lines into Hurl requests.

XPath queries are evaluated by an XPath engine outside the library: `Query::eval`
hands back the expression and the decoded body, and `xpath_result` turns the engine's
answer into the query's value or error. JSONPath queries are read (`jsonpath::Query::parse`,
whose grammar heads that module) and evaluated on the body parsed by serde_json
(`jsonpath::Query::eval`); numbers in filters are compared by their exact decimal values.
Turning the selected documents into values, which takes floating point for numbers with
a fraction, is left to the caller; `jsonpath_value` then gives the query's value. Asserts
and captures take the results of their queries as arguments, and a request takes what
was read of the files it names. Sending requests, reading files and timing are left to
the caller, which hands the library what came back.

- `src/` — the library. Each public function states what it returns in `ensures`, over
  spec functions and views; the laws that span several functions are public proof
  functions named `law_*`. Calls into outside crates (regex, url, cookie, chrono,
  percent-encoding, reqwest, serde_json) go through small trusted wrappers whose doc comments say
  what is assumed of them.
- `tests/` — tests of the library on concrete values.
- `app/` — `hurlfmt`, a command line front end: it reads files and the command line and
  prints what the library computes.
