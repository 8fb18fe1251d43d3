# tender_parser

Collects new tenders from the search results of rostender.info for a list of
keywords, on a daily timetable, and mails them as an HTML page.

- `src/` is the verified library (Verus): reading tender blocks and pagination
  out of result pages (`page_parser`, `client`), the per-session bookkeeping of
  tenders met and stored and the report (`workers`, `storage`), the rendering of
  the mailed page, and the timetable (`schedule`). Text rendering of numbers is
  in `text`, decimal parsing facts in `numbers`.
- `app/` is the program around it: HTTP requests, threads, the storage and
  settings files, e-mail and dialogs.
