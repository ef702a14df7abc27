# send_all_rs

A personalized bulk e-mail sender. The library under `src/` holds its logic,
verified with Verus; `app/` is the command-line program around it (argument
handling, reading the configuration, job, CSV and blacklist files from disk,
the SMTP connection, sleeping between batches, the progress bar and the log
file).

Library modules:

- `text`: trimming, lowercase mapping, searching, replacing and decimal
  parsing, stated over `Seq<char>`.
- `config`: the base configuration, TLS modes and duration strings
  (`30s`, `5min`, `2h`, `1d`; bare numbers are minutes).
- `job`: the job description.
- `recipient`: recipients read from the bytes of a CSV file (a header row and
  an address column, `E-Mail` by default), `$Placeholder$` personalization and
  the placeholders that have no column, and the case-insensitive blacklist.
- `mailer`: message texts, the layout of the message body, attachment names
  and media types, sender and recipient mailboxes, throttling, retries with
  back-off, and the progress of a run, which counts every recipient once as
  sent or failed.
- `summary`: the lines of the job summary shown before a run.
