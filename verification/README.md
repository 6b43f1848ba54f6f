# overseer

A terminal dashboard for a desk with music on it: what plays and its lyrics, the queue,
messages, voice channels, agents at work, the repository, the weather, and the machine.

The library holds what the dashboard decides: how titles are cleaned and lyrics found, which
line is sung, what a card shows in the cells it has, what a key does, what a refused reply
leaves behind. It is written in Verus, and every function carries a contract. The laws, which
relate several functions, are the public proof functions of each module.

- `src/` the verified library. Times are nanoseconds, money is hundred-millionths of a dollar,
  and shares of a whole are pairs of integers.
- `tests/` what the library does on given values.
- `app/` the program around it: the terminal, files, network, processes, audio, and the curves
  that are floating point.

What the library believes without proof stands in a few small wrappers, each with a doc comment
that says what it takes from outside: letter case and lossy decoding (`text`), the standard
hasher (`cache`), JSON (`json`), timestamps (`usage`), cell widths (`width`), covers (`art`) and
the split of an area (`layout`).
