# gitchecker

A command-line tool that analyses Git repositories: commit statistics of a
repository (total, last four weeks, last week, today, or since a date), the Git
repositories among the children of a directory, and a listing of untracked and
ignored files for clean-up.

The library in `src/` holds the logic. Verus proves every function's contract
there except for four small wrappers whose contracts are trusted, each calling
one outside function: `timestamp_from_secs` (chrono's
`DateTime::<Utc>::from_timestamp`), `utc_now` (`Utc::now`), `to_datetime`
(`NaiveDate::from_epoch_days` and local midnight through `Local`) in `time`, and
`to_lowercase` (`str::to_lowercase`, whose result is the named function
`lowercase`) in `repo_name`. The modules:

- `time`: instants on the UTC time line (`Timestamp`), dates as day numbers
  (`CalendarDate`), the calendar arithmetic the statistics need, and the calls
  into chrono.
- `stats`: `CommitStats` and `SinceCommitStat`, computed from the commit times
  of a revision walk.
- `find`: `FindGitRepos`, the repositories found among directory entries, with
  exclusion by folder name.
- `repo_name`: the repository name of a path.
- `output`: the output format and the names of the JSON result files.
- `status`: what the clean-up pass does with each status entry.

`app/` is the command-line front end: argument parsing with clap, reading
repositories with git2 and directories with std, printing, and writing JSON with
serde.
