# VyOS CrowdSec bouncer

A CrowdSec bouncer for VyOS routers. It fetches decisions from the local CrowdSec API and runs in one
of two modes:

* `vyos-api` keeps a firewall network group of the router in step with the decisions, through the
  VyOS HTTP API.
* `remote-group` serves a newline-delimited list of networks for `set firewall group remote-group`.

## Layout

* `src/` is the verified library: every decision that the bouncer takes, with its contract.
  * `net`, `blacklist`, `canonical`: networks, and sets of addresses with their simplest list of
    networks.
  * `crowdsec_lapi`: what is asked of CrowdSec, and the networks that its replies name.
  * `vyos_api`: commands, queries and batches for the router, and the judgement of its replies.
  * `control_loop`: the reconciliation of a group as a state machine, its retries and its schedule;
    `control_loop/properties` states what holds of it as a whole.
  * `remote_group`: the list that the router fetches.
  * `cli`, `config`, `api_url`, `utils`, `text`, `version`: arguments, settings, URLs, pauses between
    attempts, text, and the version of a build.
* `app/` is the program around it: arguments, files, HTTP and clocks.
* `tests/` runs the library on concrete values.

## What is proved

A full reconciliation leaves the group with exactly the entries it should have, at most as many as
VyOS can hold, and then settles. An incremental change adds entries only as far as that number
allows; a deletion that splits a network may still leave more. A bouncer that starts with nothing
banned never bans a trusted address, and a full reconciliation that succeeds releases any that was
banned. The blacklist changes only when every request of a change has succeeded, and a failed attempt
is followed by a full reconciliation. The lines of the served list read back as the networks on it.

The library rests on `ipnet`, `iprange`, `reqwest`, `serde_json` and `rand`. What it takes from them
stands in the contracts of small functions marked `external_body`, each beside the code that calls it.
