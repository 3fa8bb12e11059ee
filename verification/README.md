# kuna_decomp

Recovery of function prototypes in a decompiler: which registers and stack
slots carry the parameters and return values of a function, under which calling
convention, at function entries and at call sites. The library is written in
Verus; every function is proved against its contract.

## Layout

| Modules | What they hold |
| --- | --- |
| `space`, `num`, `joins`, `dtype`, `opcode`, `error` | address spaces, locations, join records, data-types |
| `entry`, `resolve`, `paramlist`, `listbuild`, `rules` | storage entries and the lists that make up a convention |
| `trial`, `active`, `sort` | trials, the locations that may be parameters |
| `fillin`, `chains`, `decide` | the verdict of a list on a set of trials |
| `pieces`, `assign`, `layout` | storage assigned to the types of a prototype |
| `effects`, `model`, `merge` | conventions as a whole, and unions of them |
| `store`, `proto`, `query`, `declare`, `encode` | prototypes of functions |
| `graph`, `script` | the data-flow that is looked at, and the changes to it |
| `callspec`, `restrict`, `commit` | prototypes at call sites |
| `callsite`, `callresult`, `callpass` | arguments and values of calls, recovered from trials |
| `actions`, `link`, `forced`, `recover`, `inputs` | the steps of the recovery |
| `byteset`, `probe`, `paths`, `entrymap`, `deadarg`, `aritylive`, `preserves`, `options` | evidence from the code of callees |
| `storage`, `disjoint`, `verdict`, `exclusive`, `gapless`, `returned` | what holds of the above as a whole |

A graph is a snapshot: the steps read it and leave a script of changes for its
owner to carry out. What only the owner can find out (where a value comes from,
the code of a callee, which registers make up a larger one) is handed in. So is
the name of a source of model identities; `app/` keeps count of those names for
the whole process.

Public proof functions whose names start with `law_` state what holds across
functions.
