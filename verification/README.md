# ant_colony

An ant-colony game: ants leave their hill, wander, find food dropped by the
player, carry it home and lay pheromone trails that other ants follow.

- `src/` is the verified library (Verus). It holds the decisions of the game:
  - `behavior`: the ant behaviour state machine (search, follow, return) and
    how it reacts to pheromones, steering ticks and trail laying;
  - `collision`: collecting a frame's contact events and deciding, in order,
    which ants deliver food to a hill and which ants forage;
  - `food`: food kinds, their sprite names, icons and textures;
  - `ground`: the layout of the randomly textured ground grid;
  - `toolbar`: the food selection toolbar and click-to-drop requests.
- `app/` is the game itself on top of bevy: rendering, input, physics events,
  particle effects, the pheromone k-d tree and every floating-point quantity
  (positions, headings, health, timers).
- `tests/` exercises the library on concrete values.
