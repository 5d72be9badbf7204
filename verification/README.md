# oo7_keyring

The logic of a secret service: keyring files that open with a password or through
GPG, and the D-Bus collections that expose their items. It is written in Verus:
the functions of the library are verified against their contracts, but for the few
small wrappers around calls into std and other crates, whose contracts are trusted and say so.

* `src/` is the library.
  * `crypto`: cryptographic errors, session keys, the decisions around GPG keys.
  * `file`: keyrings, locked and unlocked, of both kinds; loading them, changing
    their secret, rotating their key. `file::laws` states what holds of keyrings
    whatever is done with them; `file::cipher` says what a cipher has to do for its
    items to be read back and found again, and `file::content_laws` what follows.
  * `server`: collections, the scripts that carry their operations out step by step,
    prompts, and the configuration. `server::laws` states what holds of collections,
    `server::number_laws`, `server::search_laws` and `server::relocking_laws` what
    holds of the paths of their items, of searches, and of locking and unlocking.
* `tests/` runs the library.
* `app/` is the daemon around it, in ordinary Rust: files, gpg-agent, prompts, the
  bus.

The library never waits. An operation that needs something from outside stops with a
value that says what it needs, and goes on when it is called with what came of it. The
longest such value is a script, a list of actions (`server::script`): it holds the
steps that are left, and a request that fails ends it where it stands.

The cryptography of a keyring file is a trait, `KeyringCipher`. The contracts say what
the library does with whatever a cipher answers.
