# profile_svg

Builds a GitHub profile card: it fetches an account's figures through the
GitHub GraphQL API, reduces them to the data the card's HTML template reads
(`window.profileData`), renders the page in headless Chrome and writes the
screenshot, framed as an SVG document, to `profile.svg`.

The figures are computed by a library verified with Verus (`src/`):

- `calendar` — month arithmetic that rolls over like JavaScript's `Date`, the
  query's time windows, and the date texts of the card (chrono behind wrappers);
- `config` — the account, the six featured repositories and the stack chips;
- `query` — the GraphQL query;
- `stats` — the card's data, the headline counts, the featured repositories
  and `generate_stats`, which assembles the card;
- `languages` — bytes of code per language and the five largest shares;
- `activity` — streak, busiest days, most productive weekday;
- `focus` — the repository with the most commits this month and its sentence;
- `ranking` — stable descending order by a numeric key;
- `page` — the template with the card's data handed to its script;
- `export` — PNG header reading and the SVG frame (base64 behind a wrapper);
- `laws` — properties that hold for every account's data.

`app/` holds the program around it: the HTTP request, the JSON conversion, the
floating-point shares, the browser session and the file writes.

Run it with `GITHUB_TOKEN` set (and `CHROME_PATH` where Chrome is not on `PATH`)
from the directory that holds `assets/template.html`.
