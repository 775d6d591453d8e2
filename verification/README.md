# NAI Gallery

A gallery of images from NovelAI: it reads the generation metadata in PNG files, keeps an
index of them in SQLite, and helps to search, rate and sort them out. The user's files are
never moved, renamed or changed.

- `src/` is the library, verified with Verus: the metadata readers, the tags of prompts,
  perceptual hashes and their groups, the requests that the index is asked with and what is
  made of the answers, and the plan of a scan. Each function states what it returns; laws
  that relate several are proof functions whose names start with `law_`.
- `app/` is the desktop application around it: windows, files and threads.
- `tests/` runs the library, with SQLite in memory and real images.

What SQLite answers depends on the file, so no contract predicts it. Every request stands
with its answer in the connection's history, and the contracts say which requests a function
adds to it and what it makes of the answers.

Guidance scales are floating-point numbers. The library carries them as decimals.
