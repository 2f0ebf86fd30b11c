# ghpending

A digest of the open issues and change requests of the GitHub repositories and GitLab projects
that you watch.

```
ghpending               the digest
ghpending add           pick repositories or projects to watch
ghpending list          what is watched
ghpending rm            pick what to watch no longer
```

`GITHUB_TOKEN` and `GITLAB_TOKEN` authenticate; `GHPENDING_REPOS` names, for one run, other
repositories than those watched.

## Layout

- `src/` is the library, verified with Verus: what to ask the forges, what their answers mean, in
  which order results and items stand, and how the configuration changes.
  - `model`, `order`, `text`, `name_map`, `schedule`: items and results, stable sorting, text,
    maps by name, and running requests a few at a time.
  - `github`, `graphql`, `batch`: GitHub over REST and in chunks of one query each.
  - `gitlab`, `gitlab_client`: GitLab.
  - `config`, `sort`, `commands`: the configuration, the order of the digest, and the commands.
- `app/` is the program around it: arguments, files, the network and prompts.
- `tests/` runs the library.

What the proofs rest on, beside Verus and its model of the standard library, is declared where it
is used: the clock (`clock`), reason phrases (`http_status`), quoting (`graphql`), percent-encoding
(`gitlab`), parsing addresses (`gitlab_client`) and `String::push` (`text`).
