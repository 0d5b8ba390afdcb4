# colorls

A beautified `ls`: Nerd Font icons, per-type colors, git status, a tree
view, and YAML configuration layered over built-in defaults.

The listing logic is a library with machine-checked contracts (`src/`):

- `sorter`: the listing order (name, time, size or extension; directories
  first or last; reversed), a stable sort proved against its specification;
- `listing`: which entries are shown, `.`/`..`, the `--report` line and the
  order in which `-R` walks subdirectories;
- `render`: the grid layout (the most columns that fit the terminal), the
  long listing with aligned columns, and one level of the tree view;
- `git`: parsing `git status --porcelain` output, marking parent folders;
- `theme`, `icons`, `colors`: merging the user's YAML files over the
  defaults, hex colors, icon and color resolution;
- `config`, `cli`: where the config directory is and how `config.yaml`
  settings sit under command-line flags;
- `util`, `text`, `path`, `table`: human-readable sizes (exactly as the
  `f64` formatting gives them), display widths, path normalization, and
  small lookup tables.

`app/` is the program around it: argument parsing, reading the file system,
running `git`, the pager, and printing.
