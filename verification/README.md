# Fragrance Vault

A personal fragrance catalog: a collection and wishlist with per-user ratings,
searchable and sortable, with a dashboard of top picks, top-ten rankings, and
import of a fragrance's details from a product page.

- `src/` is the verified library (Verus):
  - `text` — character-level text operations (trim, search, order of texts);
  - `seasons` — the stored season list and the flags read back from it;
  - `price` — stored prices ("$1,250.00", "49.5") read as whole cents;
  - `catalog` — rows of the collection, search, and sort by rating, name,
    category, price, purchase date, notes or one user's rating (each either
    way, ties in listing order); the dashboard's picks and the rankings,
    returned as positions into the entries;
  - `json` — the schema.org (JSON-LD) values of a product page and the search
    for a product field in them;
  - `web_import` — reading a product page: JSON-LD first, Open Graph meta tags
    second, brand and name from the title, shortened notes.
- `app/` is the program around it (a small command line): the SQLite database, the network and disk
  for imports, rating averages, and the views.
