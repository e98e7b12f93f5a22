# telemetry

An agent that listens to MQTT messages, turns each into flat JSON payloads and posts
them to TopMind.

- `src/` is the library, verified with Verus: JSON values and objects (`json`), the
  border with `serde_json` (`codec`), flattening (`flatten`), taking identifiers apart
  (`adjust`, `user_agent`), the way from a message to its payloads (`message`), requests,
  replies and retries (`delivery`, `http`), topics, notifications and tokens (`agent`, `token`).
  The modules that end in `_laws` state what holds across these functions.
- `tests/` runs the library on concrete values.
- `app/` is the agent around it: MQTT, HTTP, signals and logging. How the config, topics
  and answers are read is handed to `run`.

Calls into `serde_json`, `woothee`, `svc_agent`, `svc_authn` and `isahc` stand behind small
functions marked `external_body`; each says in its doc comment what is believed of the
call.
