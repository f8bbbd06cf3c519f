# bui_env_loader

A small environment-configuration loader: typed fields read from ordered
string sources (explicit values, custom sources, a snapshot of the process
environment, dotenv files), deferred fields, and materialization of the whole
configuration into a snapshot with a categorized report.

The library in `src/` is written in Verus. Its contracts state, over
mathematical models of the data:

- the dotenv grammar (`source::dotenv::dotenv_spec`) and that the parser
  returns exactly what it defines, including the first bad line;
- source precedence: the first source holding a key provides its value, and
  every other holder is reported as a duplicate; a custom source answers as
  its own spec says when it has one (the map and dotenv sources do);
- a computed field gives exactly the results its closure can give;
- what a read in a resolve session does to the session, and which error a
  failed read gives (whether a present value parses, and to what, is up to
  the field type's `FromStr`);
- how loading ends: the constructor's error is returned as it is, and a value
  becomes the loaded configuration with its issues;
- how a materialization report is built, deduplicated and judged in each
  mode, and which events log it (`materialize::issue_events`). Which other
  events reach the reporter is not stated.

Laws that span functions are public proof functions whose names begin with
`law_`.

`app/` reads dotenv files and the process environment and hands their
contents to `Loader::load_from`; it also holds the `env_config!` macro and
`Display`/`Error` wrappers for the library's errors.
