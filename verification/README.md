# ncro

A route optimizer for binary caches of Nix: it answers for the upstreams that it
is configured with, asks them which has a store path, keeps the route that won,
and streams archives along it.

`src/` is the library, verified with Verus: the configuration and its validation,
narinfos with their fingerprints and signatures, filters, the rewriting of URLs,
the health and the order of upstreams, races and cooldowns, resolution, hedged
archive requests, headers and status pages, mesh packets and the merging of
routes, and trust in signers. Each of these is made of functions with contracts;
what holds between functions is stated by the proof functions whose names begin
with `law_`.

Calls into other crates stand behind small functions marked
`#[verifier::external_body]`, each with a comment that says what is claimed of the
call.

`app/` is the program around it: files, sockets, SQLite, HTTP and S3 clients,
timers and metrics, and the timed caches that remember results and misses for as
long as is configured. It asks the library what to do next, does it, and
hands back what came of it. Floating point stays there too.

`tests/` runs the library on values.
