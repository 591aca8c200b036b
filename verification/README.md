# tagami

A desktop assistant that drafts replies to chat messages. It finds the latest message that is
directed at the user, asks an assistant application for a reply in the user's voice, and shows the
draft. Nothing is posted before the user says so. It also logs what the user works with, reports on
it, learns how the user writes, and updates itself.

The library under `src/` decides and computes, and is verified with Verus. The program under `app/`
talks to the outside world: windows, keys, accessibility trees, process memory, files, HTTP and the
screen. It hands the library plain values and does what the library says.

## The library

| Module | What it decides |
|---|---|
| `text`, `number`, `order` | texts, numbers as text, ordered sets of texts |
| `json` | JSON documents as plain data |
| `paths` | where files lie |
| `config` | settings |
| `mem` | which memory to read, and what in it is a credential |
| `slack_api` | requests to the chat service, which credentials to try, which to remember |
| `triage` | which message to answer, what to ask, what the answer proposes |
| `uia`, `copilot` | what accessibility trees say |
| `win32` | windows, places on the screen, keys |
| `drive` | the steps that put a prompt in and get the reply out |
| `learn` | what to learn from, and the knowledge base |
| `activity`, `report`, `logs` | the activity log, reports, diagnostic logs |
| `watch`, `updater`, `autostart` | the resident program, its updates, its launcher |
| `gui`, `cli` | the window and the commands |

Proof functions whose names begin with `law_` state what holds of the library as a whole.

What the proofs rest on: the contracts of the functions marked `external_body` and of the
`assume_specification` items, which wrap `serde_json`, `std::path`, `str::to_lowercase` and two
methods of `String`.
