# cxst

`cxst` shows Codex account and rate-limit status without opening the Codex TUI. It shows no
tokens, API keys, account identifiers or raw limit identifiers.

```sh
cxst
cxst --json
cxst usage daily
cxst check --remaining-percent 10 --window both
cxst wait --remaining-percent 10 --window both --interval 60s
```

`cxst check` exits `0` when all selected rate-limit windows are above the threshold, and `1`
when one is at or below it or when rate limits are unavailable. `cxst wait` polls until a check
would exit `1`, and then exits `1`; if `--timeout` is set and passes first, it exits `0`.

## Layout

- `src/` is the library, verified with Verus. Each function's contract says what it returns or
  changes; functions named `law_...` prove what holds across functions. The few calls into the
  date library stand in `calendar.rs`, behind contracts that are trusted.
- `tests/` runs the library on concrete values, and against real doubles and dates.
- `app/` is the program around it: arguments, configuration, network, clock and printing.

| Module | Subject |
| --- | --- |
| `account` | the account that is signed in |
| `limits` | rate limits: reports, windows, limits, names |
| `wait` | comparing rate limits with a threshold, once or until it is reached |
| `usage`, `figures`, `activity` | token usage: reports, figures, the chart |
| `permissions`, `agents`, `codex` | the active configuration |
| `status` | what is printed for people |
| `percent`, `double` | doubles by their bits and in whole numbers |
| `duration`, `calendar` | spans of time, dates |
| `text`, `sorted` | texts |
